//! Quoting: identifiers in backticks, string literals, hexadecimal literals.

use vstd::prelude::*;

use crate::text::{flat_map, lemma_flat_map_front, replace_char, replaced, swap_char, to_chars};

verus! {

/// `name` as a backtick-quoted identifier, embedded backticks doubled.
pub open spec fn quoted_ident(name: Seq<char>) -> Seq<char> {
    "`"@ + replaced(name, '`', "``"@) + "`"@
}

/// Backtick-quote an identifier, doubling any embedded backticks.
pub fn ident(name: &str) -> (res: String)
    ensures
        res@ == quoted_ident(name@),
{
    let mut out = "`".to_string();
    out.append(replace_char(name, '`', "``").as_str());
    out.append("`");
    out
}

/// `name` qualified by `db`, both quoted.
pub open spec fn qualified_name(db: Seq<char>, name: Seq<char>) -> Seq<char> {
    quoted_ident(db) + "."@ + quoted_ident(name)
}

/// Quote `name` and qualify it by `db`.
pub fn qualified(db: &str, name: &str) -> (res: String)
    ensures
        res@ == qualified_name(db@, name@),
{
    let mut out = ident(db);
    out.append(".");
    out.append(ident(name).as_str());
    out
}

/// How a character is written inside a string literal.
pub open spec fn escaped_char(c: char) -> Seq<char> {
    if c == '\'' {
        seq!['\'', '\'']
    } else if c == '\\' {
        seq!['\\', '\\']
    } else if c == '\0' {
        seq!['\\', '0']
    } else if c == '\n' {
        seq!['\\', 'n']
    } else if c == '\r' {
        seq!['\\', 'r']
    } else if c == '\t' {
        seq!['\\', 't']
    } else {
        seq![c]
    }
}

/// Escaping of each character.
pub open spec fn escapes() -> spec_fn(char) -> Seq<char> {
    |c: char| escaped_char(c)
}

/// `s` as a string literal.
pub open spec fn quoted_text(s: Seq<char>) -> Seq<char> {
    seq!['\''] + flat_map(s, escapes()) + seq!['\'']
}

/// Write `s` as a single-quoted string literal.
pub fn quote_str(s: &str) -> (res: String)
    ensures
        res@ == quoted_text(s@),
{
    let chars = to_chars(s);
    let mut out = String::new();
    out.push('\'');
    assert(out@ == seq!['\''] + flat_map(chars@.take(0), escapes()));
    let mut i: usize = 0;
    while i < chars.len()
        invariant
            i <= chars@.len(),
            out@ == seq!['\''] + flat_map(chars@.take(i as int), escapes()),
        decreases chars@.len() - i,
    {
        let ghost before = out@;
        let c = chars[i];
        if c == '\'' {
            out.push('\'');
            out.push('\'');
        } else if c == '\\' {
            out.push('\\');
            out.push('\\');
        } else if c == '\0' {
            out.push('\\');
            out.push('0');
        } else if c == '\n' {
            out.push('\\');
            out.push('n');
        } else if c == '\r' {
            out.push('\\');
            out.push('r');
        } else if c == '\t' {
            out.push('\\');
            out.push('t');
        } else {
            out.push(c);
        }
        assert(out@ == before + escaped_char(c));
        proof {
            assert(chars@.take(i + 1).drop_last() == chars@.take(i as int));
            assert(out@ == seq!['\''] + flat_map(chars@.take(i + 1), escapes()));
        }
        i = i + 1;
    }
    assert(chars@.take(i as int) == s@);
    out.push('\'');
    out
}

/// The lower-case hexadecimal digit for `d`.
pub open spec fn hex_digit(d: int) -> char {
    if d < 10 {
        (48 + d) as char
    } else {
        (87 + d) as char
    }
}

/// The two hexadecimal digits of each byte.
pub open spec fn hex_digits(bytes: Seq<u8>) -> Seq<char>
    decreases bytes.len(),
{
    if bytes.len() == 0 {
        seq![]
    } else {
        hex_digits(bytes.drop_last()) + seq![
            hex_digit(bytes.last() as int / 16),
            hex_digit(bytes.last() as int % 16),
        ]
    }
}

fn push_hex_digit(out: &mut String, d: u8)
    requires
        d < 16,
    ensures
        final(out)@ == old(out)@.push(hex_digit(d as int)),
{
    if d < 10 {
        out.push((48 + d) as char);
    } else {
        out.push((87 + d) as char);
    }
}

/// Append the two hexadecimal digits of each byte.
pub fn append_hex(out: &mut String, bytes: &Vec<u8>)
    ensures
        final(out)@ == old(out)@ + hex_digits(bytes@),
{
    let ghost start = out@;
    let mut i: usize = 0;
    assert(out@ == start + hex_digits(bytes@.take(0)));
    while i < bytes.len()
        invariant
            i <= bytes@.len(),
            out@ == start + hex_digits(bytes@.take(i as int)),
        decreases bytes@.len() - i,
    {
        let b: u8 = bytes[i];
        push_hex_digit(out, b / 16);
        push_hex_digit(out, b % 16);
        proof {
            assert(bytes@.take(i + 1).drop_last() == bytes@.take(i as int));
            assert(out@ == start + hex_digits(bytes@.take(i + 1)));
        }
        i = i + 1;
    }
    assert(bytes@.take(i as int) == bytes@);
}

/// `bytes` as a hexadecimal literal.
pub open spec fn hex_text(bytes: Seq<u8>) -> Seq<char> {
    "0x"@ + hex_digits(bytes)
}

/// Write `bytes` as a `0x` hexadecimal literal.
pub fn hex_literal(bytes: &Vec<u8>) -> (res: String)
    ensures
        res@ == hex_text(bytes@),
{
    let mut out = "0x".to_string();
    append_hex(&mut out, bytes);
    out
}

/// What a backslash and the character after it stand for in a string literal.
/// `\%` and `\_` stand for themselves, so that they can be used in patterns.
pub open spec fn unescaped(c: char) -> Seq<char> {
    if c == '0' {
        seq!['\0']
    } else if c == 'b' {
        seq!['\u{8}']
    } else if c == 'n' {
        seq!['\n']
    } else if c == 'r' {
        seq!['\r']
    } else if c == 't' {
        seq!['\t']
    } else if c == 'Z' {
        seq!['\u{1a}']
    } else if c == '%' || c == '_' {
        seq!['\\', c]
    } else {
        seq![c]
    }
}

/// What the server reads from the text after the opening quote of a string
/// literal: the characters, and how much of the text the literal takes. A
/// doubled quote stands for one quote, and a backslash escapes the character
/// after it.
pub open spec fn read_literal(t: Seq<char>, i: int) -> Option<(Seq<char>, int)>
    decreases t.len() - i,
{
    if i < 0 || i >= t.len() {
        None
    } else if t[i] == '\'' {
        if i + 1 < t.len() && t[i + 1] == '\'' {
            match read_literal(t, i + 2) {
                Some((rest, end)) => Some((seq!['\''] + rest, end)),
                None => None,
            }
        } else {
            Some((seq![], i + 1))
        }
    } else if t[i] == '\\' {
        if i + 1 >= t.len() {
            None
        } else {
            match read_literal(t, i + 2) {
                Some((rest, end)) => Some((unescaped(t[i + 1]) + rest, end)),
                None => None,
            }
        }
    } else {
        match read_literal(t, i + 1) {
            Some((rest, end)) => Some((seq![t[i]] + rest, end)),
            None => None,
        }
    }
}

/// What the server reads from the text after the opening backtick of a quoted
/// identifier: the name, and how much of the text the identifier takes.
pub open spec fn read_ident(t: Seq<char>, i: int) -> Option<(Seq<char>, int)>
    decreases t.len() - i,
{
    if i < 0 || i >= t.len() {
        None
    } else if t[i] == '`' {
        if i + 1 < t.len() && t[i + 1] == '`' {
            match read_ident(t, i + 2) {
                Some((rest, end)) => Some((seq!['`'] + rest, end)),
                None => None,
            }
        } else {
            Some((seq![], i + 1))
        }
    } else {
        match read_ident(t, i + 1) {
            Some((rest, end)) => Some((seq![t[i]] + rest, end)),
            None => None,
        }
    }
}

/// Every character is written in a way that is read back as it.
pub open spec fn readable(f: spec_fn(char) -> Seq<char>, g: spec_fn(char) -> Seq<char>) -> bool {
    forall|c: char|
        {
            let w = #[trigger] f(c);
            ||| w.len() == 1 && w[0] != '\'' && w[0] != '\\' && g(c) == w
            ||| w.len() == 2 && w[0] == '\'' && w[1] == '\'' && g(c) == seq!['\'']
            ||| w.len() == 2 && w[0] == '\\' && g(c) == unescaped(w[1])
            ||| w.len() == 4 && w[0] == '\\' && w[2] == '\\' && g(c) == unescaped(w[1])
                + unescaped(w[3])
        }
}

/// The inside of a literal that is written with `f` is read back as `g` says.
pub proof fn lemma_read_literal(
    t: Seq<char>,
    i: int,
    s: Seq<char>,
    f: spec_fn(char) -> Seq<char>,
    g: spec_fn(char) -> Seq<char>,
    rest: Seq<char>,
    end: int,
)
    requires
        readable(f, g),
        0 <= i,
        i + flat_map(s, f).len() < t.len(),
        t.subrange(i, i + flat_map(s, f).len()) == flat_map(s, f),
        read_literal(t, i + flat_map(s, f).len()) == Some((rest, end)),
    ensures
        read_literal(t, i) == Some((flat_map(s, g) + rest, end)),
    decreases s.len(),
{
    let body = flat_map(s, f);
    if s.len() == 0 {
        assert(flat_map(s, g) + rest =~= rest);
    } else {
        lemma_flat_map_front(s, f);
        lemma_flat_map_front(s, g);
        let tail = flat_map(s.drop_first(), f);
        let head = f(s[0]);
        assert(body == head + tail);
        assert forall|k: int| 0 <= k < body.len() implies t[i + k] == #[trigger] body[k] by {
            assert(t.subrange(i, i + body.len())[k] == body[k]);
        }
        assert forall|k: int| 0 <= k < tail.len() implies t[i + head.len() + k]
            == #[trigger] tail[k] by {
            assert(body[head.len() + k] == tail[k]);
        }
        assert(t.subrange(i + head.len(), i + head.len() + tail.len()) =~= tail);
        lemma_read_literal(t, i + head.len(), s.drop_first(), f, g, rest, end);
        assert(body[0] == head[0]);
        assert(t[i] == head[0]);
        if head.len() >= 2 {
            assert(body[1] == head[1]);
            assert(t[i + 1] == head[1]);
        }
        let read = flat_map(s.drop_first(), g);
        if head.len() == 4 {
            assert(body[2] == head[2] && body[3] == head[3]);
            assert(t[i + 2] == head[2] && t[i + 3] == head[3]);
            let second = unescaped(head[3]);
            assert(read_literal(t, i + 2) == Some((second + (read + rest), end)));
            assert(unescaped(head[1]) + (second + (read + rest)) =~= g(s[0]) + (read + rest));
        }
        assert(g(s[0]) + (read + rest) =~= (g(s[0]) + read) + rest);
    }
}

/// Each character as it is.
pub open spec fn itself() -> spec_fn(char) -> Seq<char> {
    |c: char| seq![c]
}

/// Mapping each character to itself changes nothing.
pub proof fn lemma_itself(s: Seq<char>)
    ensures
        flat_map(s, itself()) == s,
    decreases s.len(),
{
    if s.len() > 0 {
        lemma_itself(s.drop_last());
        assert(s.drop_last() + seq![s.last()] =~= s);
    } else {
        assert(s =~= seq![]);
    }
}

proof fn lemma_quoted_round_trip(
    s: Seq<char>,
    after: Seq<char>,
    f: spec_fn(char) -> Seq<char>,
)
    requires
        readable(f, itself()),
        after.len() > 0 ==> after[0] != '\'',
    ensures
        ({
            let literal = seq!['\''] + flat_map(s, f) + seq!['\''];
            &&& (literal + after)[0] == '\''
            &&& read_literal(literal + after, 1) == Some((s, literal.len() as int))
        }),
{
    let literal = seq!['\''] + flat_map(s, f) + seq!['\''];
    let t = literal + after;
    let body = flat_map(s, f);
    assert(t.subrange(1, body.len() + 1int) =~= body);
    let end = body.len() + 1int;
    assert(t[end] == '\'');
    assert(read_literal(t, end) == Some((Seq::<char>::empty(), end + 1)));
    lemma_read_literal(t, 1, s, f, itself(), seq![], end + 1);
    lemma_itself(s);
    assert(s + Seq::<char>::empty() =~= s);
}

/// A text literal is read back as the text it was written from, whatever
/// follows it, as long as that is not another quote.
pub proof fn law_quote_round_trip(s: Seq<char>, after: Seq<char>)
    requires
        after.len() > 0 ==> after[0] != '\'',
    ensures
        (quoted_text(s) + after)[0] == '\'',
        read_literal(quoted_text(s) + after, 1) == Some((s, quoted_text(s).len() as int)),
{
    lemma_quoted_round_trip(s, after, escapes());
}

/// How a character is written inside a literal in which only quotes and
/// backslashes are escaped.
pub open spec fn plain_char(c: char) -> Seq<char> {
    if c == '\'' {
        seq!['\'', '\'']
    } else if c == '\\' {
        seq!['\\', '\\']
    } else {
        seq![c]
    }
}

/// Plain escaping of each character.
pub open spec fn plain_escapes() -> spec_fn(char) -> Seq<char> {
    |c: char| plain_char(c)
}

/// `s` as a literal in which only quotes and backslashes are escaped.
pub open spec fn plain_quoted(s: Seq<char>) -> Seq<char> {
    seq!['\''] + flat_map(s, plain_escapes()) + seq!['\'']
}

/// Write `s` as a literal in which only quotes and backslashes are escaped.
pub fn plain_literal(s: &str) -> (res: String)
    ensures
        res@ == plain_quoted(s@),
{
    let chars = to_chars(s);
    let mut out = String::new();
    out.push('\'');
    assert(out@ == seq!['\''] + flat_map(chars@.take(0), plain_escapes()));
    let mut i: usize = 0;
    while i < chars.len()
        invariant
            i <= chars@.len(),
            out@ == seq!['\''] + flat_map(chars@.take(i as int), plain_escapes()),
        decreases chars@.len() - i,
    {
        let ghost before = out@;
        let c = chars[i];
        if c == '\'' {
            out.push('\'');
        } else if c == '\\' {
            out.push('\\');
        }
        out.push(c);
        assert(out@ == before + plain_char(c));
        proof {
            assert(chars@.take(i + 1).drop_last() == chars@.take(i as int));
            assert(out@ == seq!['\''] + flat_map(chars@.take(i + 1), plain_escapes()));
        }
        i = i + 1;
    }
    assert(chars@.take(i as int) == s@);
    out.push('\'');
    out
}

/// A plain literal is read back as the text it was written from, whatever
/// follows it, as long as that is not another quote.
pub proof fn law_plain_round_trip(s: Seq<char>, after: Seq<char>)
    requires
        after.len() > 0 ==> after[0] != '\'',
    ensures
        (plain_quoted(s) + after)[0] == '\'',
        read_literal(plain_quoted(s) + after, 1) == Some((s, plain_quoted(s).len() as int)),
{
    lemma_quoted_round_trip(s, after, plain_escapes());
}

proof fn lemma_read_ident(t: Seq<char>, i: int, s: Seq<char>)
    requires
        0 <= i,
        i + replaced(s, '`', seq!['`', '`']).len() < t.len(),
        t.subrange(i, i + replaced(s, '`', seq!['`', '`']).len()) == replaced(
            s,
            '`',
            seq!['`', '`'],
        ),
        ({
            let end = i + replaced(s, '`', seq!['`', '`']).len();
            t[end] == '`' && (end + 1 < t.len() ==> t[end + 1] != '`')
        }),
    ensures
        read_ident(t, i) == Some((s, i + replaced(s, '`', seq!['`', '`']).len() + 1)),
    decreases s.len(),
{
    let f = swap_char('`', seq!['`', '`']);
    let body = flat_map(s, f);
    if s.len() == 0 {
        assert(s =~= seq![]);
    } else {
        lemma_flat_map_front(s, f);
        let rest = flat_map(s.drop_first(), f);
        let head = f(s[0]);
        assert(body == head + rest);
        assert(forall|k: int| 0 <= k < body.len() ==> t[i + k] == #[trigger] body[k]) by {
            assert forall|k: int| 0 <= k < body.len() implies t[i + k] == #[trigger] body[k] by {
                assert(t.subrange(i, i + body.len())[k] == body[k]);
            }
        }
        assert forall|k: int| 0 <= k < rest.len() implies t[i + head.len() + k]
            == #[trigger] rest[k] by {
            assert(body[head.len() + k] == rest[k]);
        }
        assert(t.subrange(i + head.len(), i + head.len() + rest.len()) =~= rest);
        lemma_read_ident(t, i + head.len(), s.drop_first());
        assert(body[0] == head[0]);
        assert(t[i] == head[0]);
        if head.len() == 2 {
            assert(body[1] == head[1]);
            assert(t[i + 1] == head[1]);
        }
        assert(seq![s[0]] + s.drop_first() =~= s);
    }
}

/// A quoted identifier is read back as the name it was written from, whatever
/// follows it, as long as that is not another backtick.
pub proof fn law_ident_round_trip(name: Seq<char>, after: Seq<char>)
    requires
        after.len() > 0 ==> after[0] != '`',
    ensures
        (quoted_ident(name) + after)[0] == '`',
        read_ident(quoted_ident(name) + after, 1) == Some(
            (name, quoted_ident(name).len() as int),
        ),
{
    reveal_strlit("`");
    reveal_strlit("``");
    assert("`"@ =~= seq!['`']);
    assert("``"@ =~= seq!['`', '`']);
    let t = quoted_ident(name) + after;
    let body = replaced(name, '`', seq!['`', '`']);
    assert(t.subrange(1, body.len() + 1int) =~= body);
    lemma_read_ident(t, 1, name);
}

/// Value of a lower-case hexadecimal digit.
pub open spec fn hex_value(c: char) -> int {
    if '0' <= c && c <= '9' {
        c as int - 48
    } else {
        c as int - 87
    }
}

/// The bytes that pairs of hexadecimal digits stand for.
pub open spec fn read_hex(t: Seq<char>) -> Seq<u8>
    decreases t.len(),
{
    if t.len() < 2 {
        seq![]
    } else {
        read_hex(t.take(t.len() - 2)).push(
            (hex_value(t[t.len() - 2]) * 16 + hex_value(t[t.len() - 1])) as u8,
        )
    }
}

/// A hexadecimal literal gives back the bytes it was written from.
pub proof fn law_hex_round_trip(bytes: Seq<u8>)
    ensures
        hex_text(bytes).take(2) == seq!['0', 'x'],
        read_hex(hex_text(bytes).skip(2)) == bytes,
{
    reveal_strlit("0x");
    assert(hex_text(bytes).take(2) =~= seq!['0', 'x']);
    assert(hex_text(bytes).skip(2) =~= hex_digits(bytes));
    lemma_read_hex(bytes);
}

proof fn lemma_read_hex(bytes: Seq<u8>)
    ensures
        hex_digits(bytes).len() == 2 * bytes.len(),
        read_hex(hex_digits(bytes)) == bytes,
    decreases bytes.len(),
{
    let t = hex_digits(bytes);
    if bytes.len() == 0 {
        assert(bytes =~= seq![]);
    } else {
        lemma_read_hex(bytes.drop_last());
        assert(t.take(t.len() - 2) =~= hex_digits(bytes.drop_last()));
        let b = bytes.last() as int;
        assert(hex_value(hex_digit(b / 16)) == b / 16);
        assert(hex_value(hex_digit(b % 16)) == b % 16);
        assert(bytes.drop_last().push(bytes.last()) =~= bytes);
    }
}

/// A hexadecimal literal holds only digits and letters.
pub proof fn lemma_hex_chars(bytes: Seq<u8>)
    ensures
        forall|i: int|
            0 <= i < hex_text(bytes).len() ==> '0' <= (#[trigger] hex_text(bytes)[i]) <= '9'
                || 'a' <= hex_text(bytes)[i] <= 'z',
    decreases bytes.len(),
{
    reveal_strlit("0x");
    if bytes.len() > 0 {
        lemma_hex_chars(bytes.drop_last());
        let before = hex_text(bytes.drop_last());
        let t = hex_text(bytes);
        assert forall|i: int| 0 <= i < t.len() implies '0' <= (#[trigger] t[i]) <= '9' || 'a'
            <= t[i] <= 'z' by {
            if i < before.len() {
                assert(t[i] == before[i]);
            }
        }
    }
}

} // verus!
