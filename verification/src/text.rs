//! Text primitives shared by the other modules. Text is modelled as the
//! sequence of its characters; byte offsets refer to its UTF-8 encoding.

use vstd::prelude::*;

verus! {

/// `String::push` appends one character at the end and changes nothing else.
pub assume_specification[ String::push ](s: &mut String, c: char)
    ensures
        final(s)@ == old(s)@.push(c),
;

/// The views of a sequence of strings.
pub open spec fn texts(v: Seq<String>) -> Seq<Seq<char>> {
    v.map_values(|s: String| s@)
}

/// The text of an optional string.
pub open spec fn opt_text(s: Option<String>) -> Option<Seq<char>> {
    match s {
        Some(s) => Some(s@),
        None => None,
    }
}

/// All characters of `s`.
pub fn to_chars(s: &str) -> (res: Vec<char>)
    ensures
        res@ == s@,
{
    let mut out: Vec<char> = Vec::new();
    for c in it: s.chars()
        invariant
            out@ == it.seq().take(it.index() as int),
            it.seq() == s@,
    {
        out.push(c);
    }
    out
}

/// The text of `chars[from..to]`.
pub fn sub_text(chars: &Vec<char>, from: usize, to: usize) -> (res: String)
    requires
        from <= to <= chars@.len(),
    ensures
        res@ == chars@.subrange(from as int, to as int),
{
    let mut out = String::new();
    let mut i: usize = from;
    while i < to
        invariant
            from <= i <= to <= chars@.len(),
            out@ == chars@.subrange(from as int, i as int),
        decreases to - i,
    {
        out.push(chars[i]);
        i = i + 1;
    }
    out
}

/// Equality of texts.
pub fn text_eq(a: &str, b: &str) -> (res: bool)
    ensures
        res == (a@ == b@),
{
    a.to_string() == b.to_string()
}

/// The Unicode `White_Space` property.
pub open spec fn is_white_space(c: char) -> bool {
    let n = c as u32;
    ||| 0x9 <= n <= 0xd
    ||| n == 0x20
    ||| n == 0x85
    ||| n == 0xa0
    ||| n == 0x1680
    ||| 0x2000 <= n <= 0x200a
    ||| n == 0x2028
    ||| n == 0x2029
    ||| n == 0x202f
    ||| n == 0x205f
    ||| n == 0x3000
}

/// Whether `c` has the Unicode `White_Space` property.
pub fn white_space(c: char) -> (res: bool)
    ensures
        res == is_white_space(c),
{
    let n: u32 = c as u32;
    (0x9 <= n && n <= 0xd) || n == 0x20 || n == 0x85 || n == 0xa0 || n == 0x1680 || (0x2000 <= n && n
        <= 0x200a) || n == 0x2028 || n == 0x2029 || n == 0x202f || n == 0x205f || n == 0x3000
}

/// `s` without its leading white space.
pub open spec fn trimmed_start(s: Seq<char>) -> Seq<char>
    decreases s.len(),
{
    if s.len() > 0 && is_white_space(s.first()) {
        trimmed_start(s.drop_first())
    } else {
        s
    }
}

/// `s` without its trailing white space.
pub open spec fn trimmed_end(s: Seq<char>) -> Seq<char>
    decreases s.len(),
{
    if s.len() > 0 && is_white_space(s.last()) {
        trimmed_end(s.drop_last())
    } else {
        s
    }
}

/// `s` without white space on either side.
pub open spec fn trimmed(s: Seq<char>) -> Seq<char> {
    trimmed_end(trimmed_start(s))
}

/// Number of leading white-space characters of `chars`.
pub fn leading_white_space(chars: &Vec<char>) -> (n: usize)
    ensures
        n <= chars@.len(),
        chars@.skip(n as int) == trimmed_start(chars@),
        forall|k: int| 0 <= k < n ==> is_white_space(#[trigger] chars@[k]),
        n < chars@.len() ==> !is_white_space(chars@[n as int]),
{
    let mut n: usize = 0;
    assert(chars@.skip(0) == chars@);
    while n < chars.len() && white_space(chars[n])
        invariant
            n <= chars@.len(),
            trimmed_start(chars@.skip(n as int)) == trimmed_start(chars@),
            forall|k: int| 0 <= k < n ==> is_white_space(#[trigger] chars@[k]),
        ensures
            n <= chars@.len(),
            n < chars@.len() ==> !is_white_space(chars@[n as int]),
        decreases chars@.len() - n,
    {
        assert(chars@.skip(n as int).drop_first() == chars@.skip(n + 1));
        n = n + 1;
    }
    n
}

/// Index just past the last character of `chars` that is not white space,
/// looking no further left than `from`.
pub fn trailing_end(chars: &Vec<char>, from: usize) -> (end: usize)
    requires
        from <= chars@.len(),
    ensures
        from <= end <= chars@.len(),
        chars@.subrange(from as int, end as int) == trimmed_end(chars@.skip(from as int)),
{
    let mut end: usize = chars.len();
    assert(chars@.subrange(from as int, end as int) == chars@.skip(from as int));
    while end > from && white_space(chars[end - 1])
        invariant
            from <= end <= chars@.len(),
            trimmed_end(chars@.subrange(from as int, end as int)) == trimmed_end(
                chars@.skip(from as int),
            ),
        ensures
            from <= end <= chars@.len(),
            end > from ==> !is_white_space(chars@[end - 1]),
        decreases end,
    {
        assert(chars@.subrange(from as int, end as int).drop_last() == chars@.subrange(
            from as int,
            end - 1,
        ));
        end = end - 1;
    }
    end
}

/// `s` without white space on either side.
pub fn trim(s: &str) -> (res: String)
    ensures
        res@ == trimmed(s@),
{
    let chars = to_chars(s);
    let from = leading_white_space(&chars);
    let to = trailing_end(&chars, from);
    sub_text(&chars, from, to)
}

/// ASCII lower case of one character; other characters are kept.
pub open spec fn ascii_lower(c: char) -> char {
    if 'A' <= c && c <= 'Z' {
        (c as u32 + 32) as char
    } else {
        c
    }
}

/// ASCII upper case of one character; other characters are kept.
pub open spec fn ascii_upper(c: char) -> char {
    if 'a' <= c && c <= 'z' {
        (c as u32 - 32) as char
    } else {
        c
    }
}

/// Every ASCII letter of `s` in lower case.
pub open spec fn lowered(s: Seq<char>) -> Seq<char> {
    s.map_values(|c: char| ascii_lower(c))
}

/// Every ASCII letter of `s` in upper case.
pub open spec fn uppered(s: Seq<char>) -> Seq<char> {
    s.map_values(|c: char| ascii_upper(c))
}

/// ASCII lower case of one character.
pub fn lower_char(c: char) -> (res: char)
    ensures
        res == ascii_lower(c),
{
    if 'A' <= c && c <= 'Z' {
        (c as u8 + 32) as char
    } else {
        c
    }
}

/// ASCII upper case of one character.
pub fn upper_char(c: char) -> (res: char)
    ensures
        res == ascii_upper(c),
{
    if 'a' <= c && c <= 'z' {
        (c as u8 - 32) as char
    } else {
        c
    }
}

/// `s` with its ASCII letters in lower case.
pub fn lowercase(s: &str) -> (res: String)
    ensures
        res@ == lowered(s@),
{
    let chars = to_chars(s);
    let mut out = String::new();
    let mut i: usize = 0;
    while i < chars.len()
        invariant
            i <= chars@.len(),
            chars@ == s@,
            out@ == lowered(chars@.take(i as int)),
        decreases chars@.len() - i,
    {
        out.push(lower_char(chars[i]));
        i = i + 1;
        assert(chars@.take(i as int) == chars@.take(i - 1).push(chars@[i - 1]));
    }
    assert(chars@.take(i as int) == s@);
    out
}

/// `s` with its ASCII letters in upper case.
pub fn uppercase(s: &str) -> (res: String)
    ensures
        res@ == uppered(s@),
{
    let chars = to_chars(s);
    let mut out = String::new();
    let mut i: usize = 0;
    while i < chars.len()
        invariant
            i <= chars@.len(),
            chars@ == s@,
            out@ == uppered(chars@.take(i as int)),
        decreases chars@.len() - i,
    {
        out.push(upper_char(chars[i]));
        i = i + 1;
        assert(chars@.take(i as int) == chars@.take(i - 1).push(chars@[i - 1]));
    }
    assert(chars@.take(i as int) == s@);
    out
}

/// `needle` stands in `hay` at position `i`.
pub open spec fn occurs_at(hay: Seq<char>, needle: Seq<char>, i: int) -> bool {
    &&& 0 <= i
    &&& i + needle.len() <= hay.len()
    &&& hay.subrange(i, i + needle.len()) == needle
}

/// `needle` stands somewhere in `hay`.
pub open spec fn has_text(hay: Seq<char>, needle: Seq<char>) -> bool {
    exists|i: int| occurs_at(hay, needle, i)
}

/// `s` begins with `prefix`.
pub open spec fn begins_with(s: Seq<char>, prefix: Seq<char>) -> bool {
    occurs_at(s, prefix, 0)
}

/// Whether `needle` stands in `hay` at position `i`.
pub fn matches_at(hay: &Vec<char>, needle: &Vec<char>, i: usize) -> (res: bool)
    ensures
        res == occurs_at(hay@, needle@, i as int),
{
    if i > hay.len() || needle.len() > hay.len() - i {
        return false;
    }
    let size: usize = hay.len();
    let mut k: usize = 0;
    while k < needle.len()
        invariant
            size == hay@.len(),
            i + needle@.len() <= hay@.len(),
            k <= needle@.len(),
            forall|m: int| 0 <= m < k ==> hay@[i + m] == needle@[m],
        decreases needle@.len() - k,
    {
        if hay[i + k] != needle[k] {
            assert(hay@.subrange(i as int, i + needle@.len())[k as int] != needle@[k as int]);
            return false;
        }
        k = k + 1;
    }
    assert(hay@.subrange(i as int, i + needle@.len()) =~= needle@);
    true
}

/// First position at or after `from` at which `needle` stands in `hay`.
pub fn find_from(hay: &Vec<char>, needle: &Vec<char>, from: usize) -> (res: Option<usize>)
    ensures
        match res {
            Some(i) => from <= i && occurs_at(hay@, needle@, i as int) && forall|k: int|
                from <= k < i ==> !#[trigger] occurs_at(hay@, needle@, k),
            None => forall|k: int| from <= k ==> !#[trigger] occurs_at(hay@, needle@, k),
        },
{
    let mut i: usize = from;
    while i <= hay.len() && needle.len() <= hay.len() - i
        invariant
            from <= i,
            forall|k: int| from <= k < i ==> !#[trigger] occurs_at(hay@, needle@, k),
        decreases hay@.len() + 1 - i,
    {
        if matches_at(hay, needle, i) {
            return Some(i);
        }
        if i == hay.len() {
            return None;
        }
        i = i + 1;
    }
    None
}

/// Whether `needle` stands somewhere in `hay`.
pub fn contains(hay: &str, needle: &str) -> (res: bool)
    ensures
        res == has_text(hay@, needle@),
{
    let h = to_chars(hay);
    let n = to_chars(needle);
    match find_from(&h, &n, 0) {
        Some(_) => true,
        None => false,
    }
}

/// Whether `s` begins with `prefix`.
pub fn starts_with(s: &str, prefix: &str) -> (res: bool)
    ensures
        res == begins_with(s@, prefix@),
{
    let h = to_chars(s);
    let n = to_chars(prefix);
    matches_at(&h, &n, 0)
}

/// The images of the characters of `s` under `f`, in order.
pub open spec fn flat_map(s: Seq<char>, f: spec_fn(char) -> Seq<char>) -> Seq<char>
    decreases s.len(),
{
    if s.len() == 0 {
        seq![]
    } else {
        flat_map(s.drop_last(), f) + f(s.last())
    }
}

/// `flat_map` of a concatenation.
pub proof fn lemma_flat_map_concat(a: Seq<char>, b: Seq<char>, f: spec_fn(char) -> Seq<char>)
    ensures
        flat_map(a + b, f) == flat_map(a, f) + flat_map(b, f),
    decreases b.len(),
{
    if b.len() == 0 {
        assert(a + b == a);
    } else {
        assert((a + b).drop_last() == a + b.drop_last());
        lemma_flat_map_concat(a, b.drop_last(), f);
    }
}

/// `flat_map` read from the front.
pub proof fn lemma_flat_map_front(s: Seq<char>, f: spec_fn(char) -> Seq<char>)
    requires
        s.len() > 0,
    ensures
        flat_map(s, f) == f(s[0]) + flat_map(s.drop_first(), f),
{
    let head = seq![s[0]];
    assert(s == head + s.drop_first());
    lemma_flat_map_concat(head, s.drop_first(), f);
    assert(head.drop_last() == Seq::<char>::empty());
    assert(flat_map(head, f) == f(s[0])) by {
        assert(flat_map(head.drop_last(), f) == Seq::<char>::empty());
        assert(Seq::<char>::empty() + f(s[0]) == f(s[0]));
    }
}

/// Maps `c` to `with` and every other character to itself.
pub open spec fn swap_char(c: char, with: Seq<char>) -> spec_fn(char) -> Seq<char> {
    |x: char|
        if x == c {
            with
        } else {
            seq![x]
        }
}

/// `s` with every `c` replaced by `with`.
pub open spec fn replaced(s: Seq<char>, c: char, with: Seq<char>) -> Seq<char> {
    flat_map(s, swap_char(c, with))
}

/// `s` with every `c` replaced by `with`.
pub fn replace_char(s: &str, c: char, with: &str) -> (res: String)
    ensures
        res@ == replaced(s@, c, with@),
{
    let chars = to_chars(s);
    let mut out = String::new();
    let mut i: usize = 0;
    while i < chars.len()
        invariant
            i <= chars@.len(),
            out@ == flat_map(chars@.take(i as int), swap_char(c, with@)),
        decreases chars@.len() - i,
    {
        let ghost before = out@;
        if chars[i] == c {
            out.append(with);
        } else {
            out.push(chars[i]);
            assert(out@ == before + seq![chars@[i as int]]);
        }
        assert(chars@.take(i + 1).drop_last() == chars@.take(i as int));
        i = i + 1;
    }
    assert(chars@.take(i as int) == s@);
    out
}

/// The parts with `sep` between each two neighbours.
pub open spec fn joined(parts: Seq<Seq<char>>, sep: Seq<char>) -> Seq<char>
    decreases parts.len(),
{
    if parts.len() == 0 {
        seq![]
    } else if parts.len() == 1 {
        parts[0]
    } else {
        joined(parts.drop_last(), sep) + sep + parts.last()
    }
}

/// The parts with `sep` between each two neighbours.
pub fn join(parts: &Vec<String>, sep: &str) -> (res: String)
    ensures
        res@ == joined(texts(parts@), sep@),
{
    let mut out = String::new();
    let mut i: usize = 0;
    while i < parts.len()
        invariant
            i <= parts@.len(),
            out@ == joined(texts(parts@).take(i as int), sep@),
        decreases parts@.len() - i,
    {
        if i > 0 {
            out.append(sep);
        }
        out.append(parts[i].as_str());
        proof {
            let all = texts(parts@);
            assert(all.take(i + 1).drop_last() == all.take(i as int));
            if i == 0 {
                assert(Seq::<char>::empty() + parts@[0]@ == parts@[0]@);
            }
        }
        i = i + 1;
    }
    assert(texts(parts@).take(i as int) == texts(parts@));
    out
}

/// `joined` read from the front.
pub proof fn lemma_joined_front(parts: Seq<Seq<char>>, sep: Seq<char>)
    requires
        parts.len() >= 2,
    ensures
        joined(parts, sep) == parts[0] + sep + joined(parts.drop_first(), sep),
    decreases parts.len(),
{
    let rest = parts.drop_first();
    if parts.len() == 2 {
        assert(parts.drop_last() =~= seq![parts[0]]);
        assert(joined(parts.drop_last(), sep) == parts[0]);
        assert(joined(rest, sep) == parts[1]);
    } else {
        lemma_joined_front(parts.drop_last(), sep);
        assert(parts.drop_last().drop_first() =~= rest.drop_last());
        let head = parts[0] + sep;
        let body = joined(rest.drop_last(), sep);
        assert(joined(parts, sep) == head + body + sep + parts.last());
        assert(head + body + sep + parts.last() =~= head + (body + sep + parts.last()));
        assert(joined(rest, sep) == body + sep + rest.last());
    }
}

/// The parts one after the other.
pub open spec fn glued(parts: Seq<Seq<char>>) -> Seq<char>
    decreases parts.len(),
{
    if parts.len() == 0 {
        seq![]
    } else {
        glued(parts.drop_last()) + parts.last()
    }
}

/// `glued` read from the front.
pub proof fn lemma_glued_front(parts: Seq<Seq<char>>)
    requires
        parts.len() > 0,
    ensures
        glued(parts) == parts[0] + glued(parts.drop_first()),
    decreases parts.len(),
{
    if parts.len() == 1 {
        assert(parts.drop_last() =~= seq![]);
        assert(parts.drop_first() =~= seq![]);
        assert(Seq::<char>::empty() + parts[0] =~= parts[0] + Seq::<char>::empty());
    } else {
        let rest = parts.drop_first();
        lemma_glued_front(parts.drop_last());
        assert(parts.drop_last().drop_first() =~= rest.drop_last());
        let body = glued(rest.drop_last());
        assert((parts[0] + body) + parts.last() =~= parts[0] + (body + parts.last()));
    }
}

/// First position from `i` on at which `needle` stands in `hay`.
pub open spec fn first_text(hay: Seq<char>, needle: Seq<char>, i: int) -> Option<int>
    decreases hay.len() - i + 1,
{
    if i < 0 || i + needle.len() > hay.len() {
        None
    } else if occurs_at(hay, needle, i) {
        Some(i)
    } else {
        first_text(hay, needle, i + 1)
    }
}

/// `first_text` finds the first occurrence.
pub proof fn lemma_first_text(hay: Seq<char>, needle: Seq<char>, i: int, k: int)
    requires
        0 <= i <= k,
        occurs_at(hay, needle, k),
        forall|m: int| i <= m < k ==> !#[trigger] occurs_at(hay, needle, m),
    ensures
        first_text(hay, needle, i) == Some(k),
    decreases k - i,
{
    if i < k {
        lemma_first_text(hay, needle, i + 1, k);
    }
}

/// `first_text` finds nothing where nothing occurs.
pub proof fn lemma_no_first_text(hay: Seq<char>, needle: Seq<char>, i: int)
    requires
        0 <= i,
        forall|m: int| i <= m ==> !#[trigger] occurs_at(hay, needle, m),
    ensures
        first_text(hay, needle, i) is None,
    decreases hay.len() - i + 1,
{
    if i + needle.len() <= hay.len() {
        lemma_no_first_text(hay, needle, i + 1);
    }
}

/// The decimal digit `d`.
pub open spec fn digit(d: nat) -> char {
    (48 + d) as char
}

/// Decimal notation of `n`, without leading zeros.
pub open spec fn decimal(n: nat) -> Seq<char>
    decreases n,
{
    if n < 10 {
        seq![digit(n)]
    } else {
        decimal(n / 10).push(digit(n % 10))
    }
}

/// Decimal notation of an integer, with a `-` in front of a negative one.
pub open spec fn signed_decimal(n: int) -> Seq<char> {
    if n < 0 {
        seq!['-'] + decimal((-n) as nat)
    } else {
        decimal(n as nat)
    }
}

/// What a reader makes of decimal digits: each one counts ten times what the
/// one after it counts. Anything but digits is no number.
pub open spec fn digits_read(s: Seq<char>) -> Option<nat>
    decreases s.len(),
{
    if s.len() == 0 {
        None
    } else {
        let d = s.last() as int - '0' as int;
        if !(0 <= d <= 9) {
            None
        } else if s.len() == 1 {
            Some(d as nat)
        } else {
            match digits_read(s.drop_last()) {
                Some(n) => Some((10 * n + d) as nat),
                None => None,
            }
        }
    }
}

/// What a reader makes of an integer: digits, with or without a minus sign.
pub open spec fn integer_read(s: Seq<char>) -> Option<int> {
    if s.len() > 0 && s[0] == '-' {
        match digits_read(s.skip(1)) {
            Some(n) => Some(-n),
            None => None,
        }
    } else {
        match digits_read(s) {
            Some(n) => Some(n as int),
            None => None,
        }
    }
}

/// Decimal notation reads back as the number, and has no leading zeros.
pub proof fn law_decimal_reads_back(n: nat)
    ensures
        digits_read(decimal(n)) == Some(n),
        decimal(n).len() > 0,
        decimal(n).len() > 1 ==> decimal(n)[0] != '0',
        forall|i: int| 0 <= i < decimal(n).len() ==> '0' <= #[trigger] decimal(n)[i] <= '9',
    decreases n,
{
    if n >= 10 {
        law_decimal_reads_back(n / 10);
        assert(decimal(n).drop_last() =~= decimal(n / 10));
    }
}

/// Decimal notation of an integer reads back as the integer.
pub proof fn law_signed_decimal_reads_back(n: int)
    ensures
        integer_read(signed_decimal(n)) == Some(n),
{
    if n < 0 {
        law_decimal_reads_back((-n) as nat);
        assert(signed_decimal(n).skip(1) =~= decimal((-n) as nat));
    } else {
        law_decimal_reads_back(n as nat);
    }
}

/// Trimming takes off white space on both sides and nothing else: what is left
/// stands in the text, with only white space before and after it, and neither
/// begins nor ends with white space.
pub proof fn law_trimmed(s: Seq<char>)
    ensures
        exists|i: int, j: int|
            {
                &&& 0 <= i <= j <= s.len()
                &&& #[trigger] s.subrange(i, j) == trimmed(s)
                &&& forall|k: int| 0 <= k < i || j <= k < s.len() ==> is_white_space(#[trigger] s[k])
            },
        trimmed(s).len() > 0 ==> !is_white_space(trimmed(s)[0]) && !is_white_space(
            trimmed(s).last(),
        ),
{
    let i = lemma_trimmed_start(s);
    let mid = trimmed_start(s);
    let n = lemma_trimmed_end(mid);
    assert(s.subrange(i, i + n) =~= mid.take(n));
    assert forall|k: int| 0 <= k < i || i + n <= k < s.len() implies is_white_space(
        #[trigger] s[k],
    ) by {
        if k >= i + n {
            assert(mid[k - i] == s[k]);
        }
    }
    if trimmed(s).len() > 0 {
        assert(trimmed(s)[0] == mid[0]);
    }
}

proof fn lemma_trimmed_start(s: Seq<char>) -> (i: int)
    ensures
        0 <= i <= s.len(),
        trimmed_start(s) == s.skip(i),
        forall|k: int| 0 <= k < i ==> is_white_space(#[trigger] s[k]),
        i < s.len() ==> !is_white_space(s[i]),
    decreases s.len(),
{
    if s.len() > 0 && is_white_space(s.first()) {
        let rest = s.drop_first();
        let i = lemma_trimmed_start(rest);
        assert(rest.skip(i) =~= s.skip(i + 1));
        assert forall|k: int| 0 <= k < i + 1 implies is_white_space(#[trigger] s[k]) by {
            if k > 0 {
                assert(rest[k - 1] == s[k]);
            }
        }
        i + 1
    } else {
        assert(s.skip(0) =~= s);
        0
    }
}

proof fn lemma_trimmed_end(s: Seq<char>) -> (n: int)
    ensures
        0 <= n <= s.len(),
        trimmed_end(s) == s.take(n),
        forall|k: int| n <= k < s.len() ==> is_white_space(#[trigger] s[k]),
        n > 0 ==> !is_white_space(s[n - 1]),
    decreases s.len(),
{
    if s.len() > 0 && is_white_space(s.last()) {
        let rest = s.drop_last();
        let n = lemma_trimmed_end(rest);
        assert(rest.take(n) =~= s.take(n));
        assert forall|k: int| n <= k < s.len() implies is_white_space(#[trigger] s[k]) by {
            if k < rest.len() {
                assert(rest[k] == s[k]);
            }
        }
        n
    } else {
        assert(s.take(s.len() as int) =~= s);
        s.len() as int
    }
}

/// Trimming and upper case do not get in each other's way.
pub proof fn lemma_trimmed_uppered(s: Seq<char>)
    ensures
        trimmed(uppered(s)) == uppered(trimmed(s)),
{
    lemma_trimmed_start_uppered(s);
    lemma_trimmed_end_uppered(trimmed_start(s));
}

proof fn lemma_trimmed_start_uppered(s: Seq<char>)
    ensures
        trimmed_start(uppered(s)) == uppered(trimmed_start(s)),
    decreases s.len(),
{
    if s.len() > 0 {
        assert(uppered(s).drop_first() =~= uppered(s.drop_first()));
        lemma_trimmed_start_uppered(s.drop_first());
    }
}

/// Trimming the end and upper case do not get in each other's way.
pub proof fn lemma_trimmed_end_uppered(s: Seq<char>)
    ensures
        trimmed_end(uppered(s)) == uppered(trimmed_end(s)),
    decreases s.len(),
{
    if s.len() > 0 {
        assert(uppered(s).drop_last() =~= uppered(s.drop_last()));
        lemma_trimmed_end_uppered(s.drop_last());
    }
}

/// Upper and lower case undo each other on ASCII letters, and change nothing
/// else: a character in upper case is no lower-case letter, and the other way
/// round.
pub proof fn law_ascii_case(c: char)
    ensures
        ascii_upper(ascii_lower(c)) == ascii_upper(c),
        ascii_lower(ascii_upper(c)) == ascii_lower(c),
        !('a' <= ascii_upper(c) <= 'z'),
        !('A' <= ascii_lower(c) <= 'Z'),
        ascii_upper(c) == c <==> !('a' <= c <= 'z'),
        ascii_lower(c) == c <==> !('A' <= c <= 'Z'),
        'a' <= c <= 'z' ==> ascii_upper(c) as int == c as int - 32,
        'A' <= c <= 'Z' ==> ascii_lower(c) as int == c as int + 32,
{
}

/// Decimal notation of `n`.
pub fn u64_text(n: u64) -> (res: String)
    ensures
        res@ == decimal(n as nat),
    decreases n,
{
    if n < 10 {
        let mut out = String::new();
        out.push((48 + n as u8) as char);
        out
    } else {
        let mut out = u64_text(n / 10);
        out.push((48 + (n % 10) as u8) as char);
        out
    }
}

/// Decimal notation of `n`.
pub fn usize_text(n: usize) -> (res: String)
    ensures
        res@ == decimal(n as nat),
{
    u64_text(n as u64)
}

/// Decimal notation of `n`, signed.
pub fn i64_text(n: i64) -> (res: String)
    ensures
        res@ == signed_decimal(n as int),
{
    if n < 0 {
        let magnitude: u64 = if n == i64::MIN {
            0x8000_0000_0000_0000
        } else {
            (-n) as u64
        };
        let mut out = String::new();
        out.push('-');
        let digits = u64_text(magnitude);
        out.append(digits.as_str());
        assert(Seq::<char>::empty().push('-') == seq!['-']);
        out
    } else {
        u64_text(n as u64)
    }
}

/// The part of `s` before its first `c`; all of `s` if there is none.
pub open spec fn before_char(s: Seq<char>, c: char) -> Seq<char>
    decreases s.len(),
{
    if s.len() == 0 || s[0] == c {
        seq![]
    } else {
        seq![s[0]] + before_char(s.drop_first(), c)
    }
}

/// Position of the first `c` in `chars`, or their number if there is none.
pub fn index_of_char(chars: &Vec<char>, c: char) -> (res: usize)
    ensures
        res <= chars@.len(),
        chars@.take(res as int) == before_char(chars@, c),
        res < chars@.len() ==> chars@[res as int] == c,
        forall|k: int| 0 <= k < res ==> #[trigger] chars@[k] != c,
{
    let mut i: usize = 0;
    assert(chars@.skip(0) == chars@);
    while i < chars.len() && chars[i] != c
        invariant
            i <= chars@.len(),
            before_char(chars@, c) == chars@.take(i as int) + before_char(
                chars@.skip(i as int),
                c,
            ),
            forall|k: int| 0 <= k < i ==> #[trigger] chars@[k] != c,
        ensures
            i <= chars@.len(),
            i < chars@.len() ==> chars@[i as int] == c,
        decreases chars@.len() - i,
    {
        assert(chars@.skip(i as int).drop_first() == chars@.skip(i + 1));
        assert(chars@.take(i as int) + seq![chars@[i as int]] == chars@.take(i + 1));
        assert(chars@.take(i as int) + (seq![chars@[i as int]] + before_char(
            chars@.skip(i + 1),
            c,
        )) == chars@.take(i + 1) + before_char(chars@.skip(i + 1), c));
        i = i + 1;
    }
    assert(before_char(chars@.skip(i as int), c) == Seq::<char>::empty());
    i
}

/// The characters of `s` up to its first white space.
pub open spec fn before_white_space(s: Seq<char>) -> Seq<char>
    decreases s.len(),
{
    if s.len() == 0 || is_white_space(s[0]) {
        seq![]
    } else {
        seq![s[0]] + before_white_space(s.drop_first())
    }
}

/// The first run of characters of `s` that are not white space.
pub open spec fn first_word_of(s: Seq<char>) -> Seq<char> {
    before_white_space(trimmed_start(s))
}

/// The first run of characters of `s` that are not white space.
pub fn first_word(s: &str) -> (res: String)
    ensures
        res@ == first_word_of(s@),
{
    let chars = to_chars(s);
    let from: usize = leading_white_space(&chars);
    let mut i: usize = from;
    while i < chars.len() && !white_space(chars[i])
        invariant
            from <= i <= chars@.len(),
            before_white_space(chars@.skip(from as int)) == chars@.subrange(from as int, i as int)
                + before_white_space(chars@.skip(i as int)),
        ensures
            from <= i <= chars@.len(),
            i < chars@.len() ==> is_white_space(chars@[i as int]),
        decreases chars@.len() - i,
    {
        let ghost done = chars@.subrange(from as int, i as int);
        let ghost c = chars@[i as int];
        assert(chars@.skip(i as int).drop_first() == chars@.skip(i + 1));
        assert(done + seq![c] == chars@.subrange(from as int, i + 1));
        assert(done + (seq![c] + before_white_space(chars@.skip(i + 1))) == (done + seq![c])
            + before_white_space(chars@.skip(i + 1)));
        i = i + 1;
    }
    assert(before_white_space(chars@.skip(i as int)) == Seq::<char>::empty());
    sub_text(&chars, from, i)
}

/// Whether `s` is empty.
pub fn is_empty(s: &str) -> (res: bool)
    ensures
        res == (s@.len() == 0),
{
    s.unicode_len() == 0
}

/// The first `n` characters of `s`.
pub open spec fn first_chars(s: Seq<char>, n: int) -> Seq<char> {
    if s.len() <= n {
        s
    } else {
        s.take(n)
    }
}

/// The first `n` characters of `s`.
pub fn shorten(s: &str, n: usize) -> (res: String)
    ensures
        res@ == first_chars(s@, n as int),
{
    let chars = to_chars(s);
    if chars.len() <= n {
        s.to_string()
    } else {
        let out = sub_text(&chars, 0, n);
        assert(out@ =~= s@.take(n as int));
        out
    }
}

/// The part of a text before a character ends where the character first stands.
pub proof fn law_before_char(a: Seq<char>, c: char, rest: Seq<char>)
    requires
        forall|i: int| 0 <= i < a.len() ==> #[trigger] a[i] != c,
    ensures
        before_char(a, c) == a,
        before_char(a + seq![c] + rest, c) == a,
    decreases a.len(),
{
    let t = a + seq![c] + rest;
    if a.len() == 0 {
        assert(t[0] == c);
        assert(before_char(t, c) =~= a);
        assert(before_char(a, c) =~= a);
    } else {
        assert(t.drop_first() =~= a.drop_first() + seq![c] + rest);
        law_before_char(a.drop_first(), c, rest);
        assert(t[0] == a[0]);
        assert(seq![a[0]] + a.drop_first() =~= a);
    }
}

/// The first word of a text ends where white space follows it.
pub proof fn law_first_word(word: Seq<char>, rest: Seq<char>)
    requires
        word.len() > 0,
        forall|i: int| 0 <= i < word.len() ==> !is_white_space(#[trigger] word[i]),
        rest.len() > 0 ==> is_white_space(rest[0]),
    ensures
        first_word_of(word + rest) == word,
{
    assert((word + rest)[0] == word[0]);
    lemma_before_white_space(word, rest);
}

proof fn lemma_before_white_space(word: Seq<char>, rest: Seq<char>)
    requires
        forall|i: int| 0 <= i < word.len() ==> !is_white_space(#[trigger] word[i]),
        rest.len() > 0 ==> is_white_space(rest[0]),
    ensures
        before_white_space(word + rest) == word,
    decreases word.len(),
{
    let t = word + rest;
    if word.len() == 0 {
        assert(t =~= rest);
        assert(before_white_space(t) =~= word);
    } else {
        assert(t[0] == word[0]);
        assert(t.drop_first() =~= word.drop_first() + rest);
        lemma_before_white_space(word.drop_first(), rest);
        assert(seq![word[0]] + word.drop_first() =~= word);
    }
}

/// `s` ends with `suffix`.
pub open spec fn ends_with(s: Seq<char>, suffix: Seq<char>) -> bool {
    s.len() >= suffix.len() && s.skip(s.len() - suffix.len()) == suffix
}

/// A text that stands in another stands there in lower case too, and upper case
/// makes no difference to that.
pub proof fn law_has_text_in_any_case(a: Seq<char>, b: Seq<char>, c: Seq<char>)
    ensures
        has_text(lowered(a + b + c), lowered(b)),
        has_text(lowered(a + b + c), lowered(uppered(b))),
        has_text(lowered(uppered(a + b + c)), lowered(b)),
{
    let s = a + b + c;
    assert forall|i: int| 0 <= i < s.len() implies lowered(uppered(s))[i] == #[trigger] lowered(
        s,
    )[i] by {
        law_ascii_case(s[i]);
    }
    assert(lowered(uppered(s)) =~= lowered(s));
    assert forall|i: int| 0 <= i < b.len() implies lowered(uppered(b))[i] == #[trigger] lowered(
        b,
    )[i] by {
        law_ascii_case(b[i]);
    }
    assert(lowered(uppered(b)) =~= lowered(b));
    let n = a.len() as int;
    assert(lowered(s).subrange(n, n + b.len()) =~= lowered(b));
    assert(occurs_at(lowered(s), lowered(b), n));
}

/// White space is the space, the tabs, line and form feeds and the carriage
/// return of ASCII, and beyond ASCII the next line, the no-break, ogham,
/// typographic and ideographic spaces and the line and paragraph separators.
/// Nothing that is drawn is white space.
pub proof fn law_white_space(c: char)
    ensures
        c <= '\u{7f}' ==> (is_white_space(c) <==> c == ' ' || c == '\t' || c == '\n' || c == '\u{b}'
            || c == '\u{c}' || c == '\r'),
        '\u{80}' <= c <= '\u{1fff}' ==> (is_white_space(c) <==> c == '\u{85}' || c == '\u{a0}' || c
            == '\u{1680}'),
        '\u{2000}' <= c ==> (is_white_space(c) <==> c <= '\u{200a}' || c == '\u{2028}' || c
            == '\u{2029}' || c == '\u{202f}' || c == '\u{205f}' || c == '\u{3000}'),
{
}

} // verus!
