//! Positions and lines in a text: the word at the cursor, byte and character
//! offsets, splitting into lines, and commenting lines out and in.

use vstd::prelude::*;
use vstd::utf8::{encode_utf8, is_char_boundary, is_continuation_byte, valid_utf8};

use crate::text::{
    begins_with, find_from, first_text, glued, is_white_space, leading_white_space,
    lemma_first_text, lemma_glued_front, matches_at, occurs_at, sub_text, to_chars, trailing_end,
    trimmed, trimmed_end, trimmed_start,
};
use crate::utf8::{
    byte_len, char_width, chars_before, lemma_boundary_after_ascii, lemma_chars_before,
    lemma_encode_concat, lemma_prefix_boundary, lemma_prefix_len, slice,
};

verus! {

/// A byte of an identifier: an ASCII letter, digit or underscore.
pub open spec fn ident_byte(b: u8) -> bool {
    (0x30 <= b <= 0x39) || (0x41 <= b <= 0x5a) || (0x61 <= b <= 0x7a) || b == 0x5f
}

/// Start of the identifier that ends at `i`.
pub open spec fn word_begin(b: Seq<u8>, i: int) -> int
    decreases i,
{
    if 0 < i <= b.len() && ident_byte(b[i - 1]) {
        word_begin(b, i - 1)
    } else {
        i
    }
}

/// The smaller of two numbers.
pub open spec fn least(a: int, b: int) -> int {
    if a <= b {
        a
    } else {
        b
    }
}

/// The end of a text is a boundary of its encoding.
pub proof fn lemma_end_boundary(s: Seq<char>)
    ensures
        valid_utf8(encode_utf8(s)),
        is_char_boundary(encode_utf8(s), byte_len(s)),
        is_char_boundary(encode_utf8(s), 0),
{
    lemma_prefix_boundary(s, s.len() as int);
    assert(s.take(s.len() as int) =~= s);
    lemma_prefix_boundary(s, 0);
    assert(s.take(0) =~= Seq::<char>::empty());
}

/// The identifier that ends at the cursor: its start, and its text. A cursor
/// behind the end counts as the end.
pub fn current_word(text: &str, cursor: usize) -> (res: (usize, String))
    requires
        cursor < byte_len(text@) ==> is_char_boundary(encode_utf8(text@), cursor as int),
    ensures
        res.0 == word_begin(encode_utf8(text@), least(cursor as int, byte_len(text@))),
        res.0 <= least(cursor as int, byte_len(text@)),
        encode_utf8(res.1@) == encode_utf8(text@).subrange(
            res.0 as int,
            least(cursor as int, byte_len(text@)),
        ),
        is_char_boundary(encode_utf8(text@), res.0 as int),
{
    let bytes = text.as_bytes();
    let ghost b = encode_utf8(text@);
    let end: usize = if cursor <= bytes.len() {
        cursor
    } else {
        bytes.len()
    };
    let mut start: usize = end;
    proof {
        lemma_end_boundary(text@);
    }
    while start > 0 && ((0x30 <= bytes[start - 1] && bytes[start - 1] <= 0x39) || (0x41
        <= bytes[start - 1] && bytes[start - 1] <= 0x5a) || (0x61 <= bytes[start - 1]
        && bytes[start - 1] <= 0x7a) || bytes[start - 1] == 0x5f)
        invariant
            bytes@ == b,
            b == encode_utf8(text@),
            valid_utf8(b),
            start <= end <= b.len(),
            is_char_boundary(b, start as int),
            word_begin(b, start as int) == word_begin(b, end as int),
        ensures
            start <= end,
            is_char_boundary(b, start as int),
            word_begin(b, start as int) == start,
        decreases start,
    {
        proof {
            assert(!is_continuation_byte(b[start - 1]));
            vstd::utf8::is_char_boundary_iff_not_is_continuation_byte(b, start - 1);
        }
        start = start - 1;
    }
    let word = slice(text, start, end);
    (start, word.to_string())
}

/// Byte offset of the character with the given number; the end of the text
/// where there is no such character.
pub fn byte_index_from_char(text: &str, char_idx: usize) -> (res: usize)
    ensures
        res == byte_len(text@.take(least(char_idx as int, text@.len() as int))),
{
    let chars = to_chars(text);
    let total: usize = text.as_bytes().len();
    let mut i: usize = 0;
    let mut pos: usize = 0;
    assert(text@.take(0) =~= Seq::<char>::empty());
    while i < chars.len() && i < char_idx
        invariant
            chars@ == text@,
            total == byte_len(text@),
            i <= chars@.len(),
            i <= char_idx,
            pos == byte_len(text@.take(i as int)),
        decreases chars@.len() - i,
    {
        proof {
            let c = text@[i as int];
            assert(text@.take(i + 1) =~= text@.take(i as int) + seq![c]);
            lemma_encode_concat(text@.take(i as int), seq![c]);
            lemma_prefix_len(text@, i + 1, i + 1);
        }
        pos = pos + char_width(chars[i]);
        i = i + 1;
    }
    pos
}

/// Number of the character at a byte offset; the number of characters where the
/// offset is at or behind the end.
pub fn char_index_from_byte(text: &str, byte_idx: usize) -> (res: usize)
    requires
        byte_idx < byte_len(text@) ==> is_char_boundary(encode_utf8(text@), byte_idx as int),
    ensures
        res == chars_before(text@, byte_idx as int),
        0 <= res <= text@.len(),
{
    let total: usize = text.as_bytes().len();
    if byte_idx >= total {
        proof {
            if text@.len() == 0 {
                assert(chars_before(text@, byte_idx as int) == 0);
            }
        }
        text.unicode_len()
    } else {
        proof {
            lemma_end_boundary(text@);
        }
        let head = slice(text, 0, byte_idx);
        proof {
            assert(text@.take(0) =~= Seq::<char>::empty());
            lemma_chars_before(text@, 0);
            assert(chars_before(text@, 0) == 0);
        }
        head.unicode_len()
    }
}

/// Converting a character number to a byte offset and back gives the number.
pub proof fn law_offsets_invert(s: Seq<char>, n: int)
    requires
        0 <= n <= s.len(),
    ensures
        chars_before(s, byte_len(s.take(n))) == n,
        is_char_boundary(encode_utf8(s), byte_len(s.take(n))),
{
    lemma_chars_before(s, n);
    lemma_prefix_boundary(s, n);
}

/// The lines of `s`, each with its line feed, given that the line at hand
/// starts at `start` and goes on at `i`.
pub open spec fn lines_from(s: Seq<char>, start: int, i: int) -> Seq<Seq<char>>
    decreases s.len() - i,
{
    if i < 0 || i >= s.len() {
        if start < s.len() {
            seq![s.subrange(start, s.len() as int)]
        } else {
            seq![]
        }
    } else if s[i] == '\n' {
        seq![s.subrange(start, i + 1)] + lines_from(s, i + 1, i + 1)
    } else {
        lines_from(s, start, i + 1)
    }
}

/// The lines of `s`, each with its line feed.
pub open spec fn lines_of(s: Seq<char>) -> Seq<Seq<char>> {
    lines_from(s, 0, 0)
}

/// The views of a sequence of string slices.
pub open spec fn slices(v: Seq<&str>) -> Seq<Seq<char>> {
    v.map_values(|s: &str| s@)
}

/// Split a text into its lines, each with its line feed.
pub fn split_keep_newlines(text: &str) -> (res: Vec<&str>)
    ensures
        slices(res@) == lines_of(text@),
{
    let chars = to_chars(text);
    let total: usize = text.as_bytes().len();
    let mut out: Vec<&str> = Vec::new();
    let mut i: usize = 0;
    let mut pos: usize = 0;
    let mut start: usize = 0;
    let ghost mut first: int = 0;
    assert(text@.take(0) =~= Seq::<char>::empty());
    assert(slices(out@) + lines_from(text@, 0, 0) =~= lines_of(text@));
    while i < chars.len()
        invariant
            chars@ == text@,
            total == byte_len(text@),
            0 <= first <= i <= chars@.len(),
            pos == byte_len(text@.take(i as int)),
            start == byte_len(text@.take(first)),
            slices(out@) + lines_from(text@, first, i as int) == lines_of(text@),
        decreases chars@.len() - i,
    {
        proof {
            let c = text@[i as int];
            assert(text@.take(i + 1) =~= text@.take(i as int) + seq![c]);
            lemma_encode_concat(text@.take(i as int), seq![c]);
            lemma_prefix_len(text@, i + 1, i + 1);
            lemma_prefix_len(text@, first, i + 1);
        }
        pos = pos + char_width(chars[i]);
        if chars[i] == '\n' {
            proof {
                lemma_prefix_boundary(text@, first);
                lemma_prefix_boundary(text@, i + 1);
                lemma_chars_before(text@, first);
                lemma_chars_before(text@, i + 1);
            }
            let ghost before = slices(out@);
            let line = slice(text, start, pos);
            out.push(line);
            proof {
                let rest = lines_from(text@, i + 1, i + 1);
                assert(slices(out@) =~= before.push(line@));
                assert(before + (seq![line@] + rest) =~= slices(out@) + rest);
                first = i + 1;
            }
            start = pos;
        }
        i = i + 1;
    }
    assert(text@.take(i as int) =~= text@);
    proof {
        lemma_prefix_len(text@, first, i as int);
    }
    if start < total {
        proof {
            if first == text@.len() {
                assert(text@.take(first) =~= text@);
            }
            lemma_end_boundary(text@);
            lemma_prefix_boundary(text@, first);
            lemma_chars_before(text@, first);
            lemma_chars_before(text@, text@.len() as int);
        }
        let ghost before = slices(out@);
        let line = slice(text, start, total);
        out.push(line);
        assert(slices(out@) =~= before + seq![line@]);
    } else {
        assert(slices(out@) + Seq::<Seq<char>>::empty() =~= slices(out@));
    }
    out
}

/// Start of the line that `i` is in.
pub open spec fn line_begin(b: Seq<u8>, i: int) -> int
    decreases i,
{
    if 0 < i <= b.len() && b[i - 1] != 0x0a {
        line_begin(b, i - 1)
    } else {
        i
    }
}

/// Position after the line that `i` is in, with its line feed.
pub open spec fn line_close(b: Seq<u8>, i: int) -> int
    decreases b.len() - i,
{
    if i < 0 || i >= b.len() {
        b.len() as int
    } else if b[i] == 0x0a {
        i + 1
    } else {
        line_close(b, i + 1)
    }
}

/// The lines that a range touches: the start of the first, and the position
/// after the last. Offsets behind the end count as the end.
pub fn expand_to_lines(text: &str, lo: usize, hi: usize) -> (res: (usize, usize))
    ensures
        res.0 == line_begin(encode_utf8(text@), least(lo as int, byte_len(text@))),
        res.1 == line_close(encode_utf8(text@), least(hi as int, byte_len(text@))),
        res.0 <= byte_len(text@),
        res.1 <= byte_len(text@),
        is_char_boundary(encode_utf8(text@), res.0 as int),
        is_char_boundary(encode_utf8(text@), res.1 as int),
{
    let bytes = text.as_bytes();
    let ghost b = encode_utf8(text@);
    let size: usize = bytes.len();
    let lo: usize = if lo < size {
        lo
    } else {
        size
    };
    let hi: usize = if hi < size {
        hi
    } else {
        size
    };
    proof {
        lemma_end_boundary(text@);
    }
    let mut start: usize = lo;
    while start > 0 && bytes[start - 1] != 0x0a
        invariant
            bytes@ == b,
            start <= lo <= b.len(),
            line_begin(b, start as int) == line_begin(b, lo as int),
        ensures
            start <= lo,
            line_begin(b, start as int) == start,
            start > 0 ==> b[start - 1] == 0x0a,
        decreases start,
    {
        start = start - 1;
    }
    let mut end: usize = hi;
    while end < size && bytes[end] != 0x0a
        invariant
            bytes@ == b,
            size == b.len(),
            hi <= end <= b.len(),
            line_close(b, end as int) == line_close(b, hi as int),
        ensures
            hi <= end <= b.len(),
            end < b.len() ==> b[end as int] == 0x0a,
        decreases size - end,
    {
        end = end + 1;
    }
    if end < size {
        end = end + 1;
    }
    proof {
        if start > 0 {
            lemma_boundary_after_ascii(b, start as int);
        }
        if end > 0 && b[end - 1] == 0x0a {
            lemma_boundary_after_ascii(b, end as int);
        }
    }
    (start, end)
}

/// A line without anything but white space.
pub open spec fn is_blank(line: Seq<char>) -> bool {
    trimmed(line).len() == 0
}

/// A line that begins with a comment mark, after white space.
pub open spec fn is_commented(line: Seq<char>) -> bool {
    begins_with(trimmed_start(line), "-- "@)
}

/// Every line that is not blank is commented out.
pub open spec fn all_commented(lines: Seq<Seq<char>>) -> bool {
    forall|i: int| 0 <= i < lines.len() && !is_blank(#[trigger] lines[i]) ==> is_commented(lines[i])
}

/// `line` with a comment mark after its leading white space.
pub open spec fn commented(line: Seq<char>) -> Seq<char> {
    let n = line.len() - trimmed_start(line).len();
    line.take(n) + "-- "@ + line.skip(n)
}

/// `line` without its first comment mark.
pub open spec fn uncommented(line: Seq<char>) -> Seq<char> {
    match first_text(line, "-- "@, 0) {
        Some(i) => line.take(i) + line.skip(i + 3),
        None => line,
    }
}

/// A line commented in or out; a blank line is kept.
pub open spec fn toggled_line(line: Seq<char>, remove: bool) -> Seq<char> {
    if is_blank(line) {
        line
    } else if remove {
        uncommented(line)
    } else {
        commented(line)
    }
}

/// The lines commented in or out.
pub open spec fn toggled_lines(lines: Seq<Seq<char>>, remove: bool) -> Seq<Seq<char>> {
    lines.map_values(|l: Seq<char>| toggled_line(l, remove))
}

/// A block of lines commented in, where all of them are commented out, and
/// commented out otherwise.
pub open spec fn toggled(block: Seq<char>) -> Seq<char> {
    glued(toggled_lines(lines_of(block), all_commented(lines_of(block))))
}

fn blank(line: &str) -> (res: bool)
    ensures
        res == is_blank(line@),
{
    let chars = to_chars(line);
    let from: usize = leading_white_space(&chars);
    let to: usize = trailing_end(&chars, from);
    from == to
}

fn has_mark(line: &str) -> (res: bool)
    ensures
        res == is_commented(line@),
{
    let chars = to_chars(line);
    let from: usize = leading_white_space(&chars);
    let mark = to_chars("-- ");
    let res = matches_at(&chars, &mark, from);
    proof {
        let rest = trimmed_start(line@);
        assert(rest == chars@.skip(from as int));
        let n = mark@.len() as int;
        if from + n <= chars@.len() {
            assert(rest.subrange(0, n) =~= chars@.subrange(from as int, from + n));
        }
    }
    res
}

fn toggle_line(line: &str, remove: bool) -> (res: String)
    ensures
        res@ == toggled_line(line@, remove),
{
    if blank(line) {
        return line.to_string();
    }
    let chars = to_chars(line);
    let size: usize = chars.len();
    let mark = to_chars("-- ");
    proof {
        reveal_strlit("-- ");
    }
    if remove {
        match find_from(&chars, &mark, 0) {
            Some(i) => {
                proof {
                    lemma_first_text(chars@, mark@, 0, i as int);
                }
                let mut out = sub_text(&chars, 0, i);
                out.append(sub_text(&chars, i + 3, size).as_str());
                assert(out@ =~= chars@.take(i as int) + chars@.skip(i + 3));
                out
            },
            None => {
                proof {
                    crate::text::lemma_no_first_text(chars@, mark@, 0);
                }
                line.to_string()
            },
        }
    } else {
        let n: usize = leading_white_space(&chars);
        let mut out = sub_text(&chars, 0, n);
        out.append("-- ");
        out.append(sub_text(&chars, n, size).as_str());
        assert(trimmed_start(line@).len() == size - n);
        assert(out@ =~= commented(line@));
        out
    }
}

/// Comment a block of lines in, where all of them are commented out, and comment
/// it out otherwise. Blank lines are kept.
pub fn toggle_block(block: &str) -> (res: String)
    ensures
        res@ == toggled(block@),
{
    let lines = split_keep_newlines(block);
    let ghost all = slices(lines@);
    let mut remove = true;
    let mut i: usize = 0;
    while i < lines.len()
        invariant
            i <= lines@.len(),
            all == slices(lines@),
            remove == all_commented(all.take(i as int)),
        decreases lines@.len() - i,
    {
        let bad = !blank(lines[i]) && !has_mark(lines[i]);
        proof {
            let now = all.take(i as int);
            let next = all.take(i + 1);
            assert(next =~= now.push(all[i as int]));
            assert(next[i as int] == lines@[i as int]@);
            if all_commented(next) {
                assert forall|k: int| 0 <= k < now.len() && !is_blank(
                    #[trigger] now[k],
                ) implies is_commented(now[k]) by {
                    assert(next[k] == now[k]);
                }
            }
            if all_commented(now) && !bad {
                assert forall|k: int| 0 <= k < next.len() && !is_blank(
                    #[trigger] next[k],
                ) implies is_commented(next[k]) by {
                    if k < i {
                        assert(now[k] == next[k]);
                    }
                }
            }
        }
        if bad {
            remove = false;
        }
        i = i + 1;
    }
    assert(all.take(i as int) =~= all);
    let ghost done = toggled_lines(all, remove);
    let mut out = String::new();
    let mut k: usize = 0;
    assert(done.take(0) =~= Seq::<Seq<char>>::empty());
    while k < lines.len()
        invariant
            k <= lines@.len(),
            all == slices(lines@),
            done == toggled_lines(all, remove),
            out@ == glued(done.take(k as int)),
        decreases lines@.len() - k,
    {
        let line = toggle_line(lines[k], remove);
        out.append(line.as_str());
        assert(done.take(k + 1).drop_last() =~= done.take(k as int));
        assert(done.take(k + 1).last() == line@);
        k = k + 1;
    }
    assert(done.take(k as int) =~= done);
    out
}

/// A line feed stands at `i` only where `i` is the last position.
pub open spec fn is_line(line: Seq<char>) -> bool {
    &&& line.len() > 0
    &&& forall|i: int| 0 <= i < line.len() && #[trigger] line[i] == '\n' ==> i == line.len() - 1
}

/// These are the lines of some text: each is a line, and each but the last ends
/// with a line feed.
pub open spec fn are_lines(lines: Seq<Seq<char>>) -> bool {
    &&& forall|k: int| 0 <= k < lines.len() ==> is_line(#[trigger] lines[k])
    &&& forall|k: int|
        0 <= k < lines.len() - 1 ==> (#[trigger] lines[k])[lines[k].len() - 1] == '\n'
}

proof fn lemma_lines_from(s: Seq<char>, start: int, i: int)
    requires
        0 <= start <= i <= s.len(),
        forall|k: int| start <= k < i ==> #[trigger] s[k] != '\n',
    ensures
        are_lines(lines_from(s, start, i)),
        glued(lines_from(s, start, i)) == s.skip(start),
    decreases s.len() - i,
{
    let lines = lines_from(s, start, i);
    if i == s.len() {
        if start < s.len() {
            let line = s.subrange(start, s.len() as int);
            assert(lines.drop_last() =~= Seq::<Seq<char>>::empty());
            assert(glued(lines.drop_last()) =~= Seq::<char>::empty());
            assert(lines.last() == line);
            assert(Seq::<char>::empty() + line =~= s.skip(start));
            assert forall|k: int| 0 <= k < line.len() implies #[trigger] line[k] != '\n' by {
                assert(line[k] == s[start + k]);
            }
        } else {
            assert(s.skip(start) =~= Seq::<char>::empty());
        }
    } else if s[i] == '\n' {
        let line = s.subrange(start, i + 1);
        let rest = lines_from(s, i + 1, i + 1);
        lemma_lines_from(s, i + 1, i + 1);
        lemma_glued_front(lines);
        assert(lines.drop_first() =~= rest);
        assert(line + s.skip(i + 1) =~= s.skip(start));
        assert forall|k: int| 0 <= k < line.len() && #[trigger] line[k] == '\n' implies k
            == line.len() - 1 by {
            assert(line[k] == s[start + k]);
        }
        assert forall|k: int| 0 <= k < lines.len() implies is_line(#[trigger] lines[k]) by {
            if k > 0 {
                assert(lines[k] == rest[k - 1]);
            }
        }
        assert forall|k: int| 0 <= k < lines.len() - 1 implies (#[trigger] lines[k])[lines[k].len()
            - 1] == '\n' by {
            if k > 0 {
                assert(lines[k] == rest[k - 1]);
            }
        }
    } else {
        lemma_lines_from(s, start, i + 1);
    }
}

/// The lines of a text make up the text, and only their last characters are line
/// feeds.
pub proof fn law_lines_make_up_text(s: Seq<char>)
    ensures
        glued(lines_of(s)) == s,
        are_lines(lines_of(s)),
{
    lemma_lines_from(s, 0, 0);
    assert(s.skip(0) =~= s);
}

proof fn lemma_scan_line(s: Seq<char>, start: int, i: int, end: int)
    requires
        0 <= start <= i <= end <= s.len(),
        forall|k: int| start <= k < end - 1 ==> #[trigger] s[k] != '\n',
        start < end,
        s[end - 1] == '\n' || end == s.len(),
    ensures
        lines_from(s, start, i) == seq![s.subrange(start, end)] + lines_from(s, end, end) || i
            == end,
    decreases end - i,
{
    if i < end {
        if i == end - 1 {
            if s[i] != '\n' {
                assert(lines_from(s, start, end) =~= seq![s.subrange(start, end)] + lines_from(
                    s,
                    end,
                    end,
                ));
            }
        } else {
            assert(s[i] != '\n');
            lemma_scan_line(s, start, i + 1, end);
        }
    }
}

proof fn lemma_relines(lines: Seq<Seq<char>>, s: Seq<char>, start: int)
    requires
        are_lines(lines),
        0 <= start <= s.len(),
        s.skip(start) == glued(lines),
    ensures
        lines_from(s, start, start) == lines,
    decreases lines.len(),
{
    if lines.len() == 0 {
        assert(s.skip(start).len() == 0);
        assert(lines_from(s, start, start) =~= lines);
    } else {
        lemma_glued_front(lines);
        let line = lines[0];
        let rest = lines.drop_first();
        let end = start + line.len();
        assert(is_line(line));
        assert(s.skip(start) == line + glued(rest));
        assert forall|k: int| start <= k < end implies #[trigger] s[k] == line[k - start] by {
            assert(s.skip(start)[k - start] == s[k]);
        }
        assert(s.subrange(start, end) =~= line);
        assert(s.skip(end) =~= glued(rest)) by {
            assert(s.skip(start).skip(line.len() as int) =~= s.skip(end));
            assert((line + glued(rest)).skip(line.len() as int) =~= glued(rest));
        }
        if rest.len() == 0 {
            assert(glued(rest).len() == 0);
            assert(s.skip(end).len() == 0);
        }
        assert forall|k: int| start <= k < end - 1 implies #[trigger] s[k] != '\n' by {
            assert(s[k] == line[k - start]);
        }
        lemma_scan_line(s, start, start, end);
        assert(are_lines(rest)) by {
            assert forall|k: int| 0 <= k < rest.len() implies is_line(#[trigger] rest[k]) by {
                assert(rest[k] == lines[k + 1]);
            }
            assert forall|k: int| 0 <= k < rest.len() - 1 implies (#[trigger] rest[k])[rest[k].len()
                - 1] == '\n' by {
                assert(rest[k] == lines[k + 1]);
            }
        }
        lemma_relines(rest, s, end);
        assert(seq![line] + rest =~= lines);
    }
}

/// Lines that are put together are split into the same lines again.
pub proof fn law_lines_split_again(lines: Seq<Seq<char>>)
    requires
        are_lines(lines),
    ensures
        lines_of(glued(lines)) == lines,
{
    assert(glued(lines).skip(0) =~= glued(lines));
    lemma_relines(lines, glued(lines), 0);
}

/// Leading white space: how much there is, and what stands after it.
proof fn lemma_leading(s: Seq<char>)
    ensures
        trimmed_start(s).len() <= s.len(),
        ({
            let n = s.len() - trimmed_start(s).len();
            &&& s.skip(n) == trimmed_start(s)
            &&& forall|k: int| 0 <= k < n ==> is_white_space(#[trigger] s[k])
            &&& n < s.len() ==> !is_white_space(s[n])
        }),
    decreases s.len(),
{
    if s.len() > 0 && is_white_space(s.first()) {
        let t = s.drop_first();
        lemma_leading(t);
        let m = t.len() - trimmed_start(t).len();
        assert(s.skip(m + 1) =~= t.skip(m));
        assert forall|k: int| 0 <= k < m + 1 implies is_white_space(#[trigger] s[k]) by {
            if k > 0 {
                assert(s[k] == t[k - 1]);
            }
        }
        if m < t.len() {
            assert(s[m + 1] == t[m]);
        }
    } else {
        assert(s.skip(0) =~= s);
    }
}

proof fn lemma_start_of(ws: Seq<char>, rest: Seq<char>)
    requires
        forall|k: int| 0 <= k < ws.len() ==> is_white_space(#[trigger] ws[k]),
        rest.len() > 0,
        !is_white_space(rest[0]),
    ensures
        trimmed_start(ws + rest) == rest,
        trimmed(ws + rest).len() > 0,
    decreases ws.len(),
{
    if ws.len() == 0 {
        assert(ws + rest =~= rest);
        lemma_end_keeps_first(rest);
    } else {
        let t = ws.drop_first();
        assert((ws + rest).drop_first() =~= t + rest);
        assert forall|k: int| 0 <= k < t.len() implies is_white_space(#[trigger] t[k]) by {
            assert(t[k] == ws[k + 1]);
        }
        assert((ws + rest).first() == ws[0]);
        lemma_start_of(t, rest);
    }
}

proof fn lemma_end_keeps_first(s: Seq<char>)
    requires
        s.len() > 0,
        !is_white_space(s[0]),
    ensures
        trimmed_end(s).len() > 0,
    decreases s.len(),
{
    if is_white_space(s.last()) {
        assert(s.len() > 1);
        lemma_end_keeps_first(s.drop_last());
    }
}

proof fn lemma_trimmed_of_empty(s: Seq<char>)
    requires
        trimmed_start(s).len() == 0,
    ensures
        is_blank(s),
{
}

proof fn lemma_commented_line(line: Seq<char>)
    requires
        is_line(line),
        !is_blank(line),
    ensures
        is_line(commented(line)),
        line[line.len() - 1] == '\n' ==> commented(line)[commented(line).len() - 1] == '\n',
        !is_blank(commented(line)),
        is_commented(commented(line)),
        uncommented(commented(line)) == line,
{
    reveal_strlit("-- ");
    lemma_leading(line);
    let rest = trimmed_start(line);
    if rest.len() == 0 {
        lemma_trimmed_of_empty(line);
    }
    let n = line.len() - rest.len();
    let ws = line.take(n);
    let marked = "-- "@ + rest;
    let out = commented(line);
    assert(out =~= ws + marked);
    assert(marked[0] == '-');
    lemma_start_of(ws, marked);
    assert(marked.subrange(0, 3) =~= "-- "@);
    assert(out.len() == line.len() + 3);
    assert forall|i: int| 0 <= i < out.len() && #[trigger] out[i] == '\n' implies i == out.len()
        - 1 by {
        if i < n {
            assert(out[i] == line[i]);
        } else if i < n + 3 {
            assert(out[i] == "-- "@[i - n]);
        } else {
            assert(out[i] == line[i - 3]);
        }
    }
    assert(out[out.len() - 1] == line[line.len() - 1]);
    assert(out.subrange(n, n + 3) =~= "-- "@);
    assert forall|m: int| 0 <= m < n implies !#[trigger] occurs_at(out, "-- "@, m) by {
        if occurs_at(out, "-- "@, m) {
            assert(out.subrange(m, m + 3)[0] == "-- "@[0]);
            assert(out[m] == line[m]);
            assert(is_white_space(line[m]));
        }
    }
    lemma_first_text(out, "-- "@, 0, n);
    assert(out.take(n) + out.skip(n + 3) =~= line);
}

/// Toggling a block that is not all commented out, and toggling it again, gives
/// the block back.
pub proof fn law_toggle_twice(block: Seq<char>)
    requires
        !all_commented(lines_of(block)),
    ensures
        toggled(toggled(block)) == block,
{
    let lines = lines_of(block);
    let done = toggled_lines(lines, false);
    law_lines_make_up_text(block);
    assert forall|k: int| 0 <= k < lines.len() implies is_line(#[trigger] done[k]) && (
    !is_blank(done[k]) ==> is_commented(done[k])) && toggled_line(done[k], true) == lines[k] && (
    lines[k][lines[k].len() - 1] == '\n' ==> done[k][done[k].len() - 1] == '\n') by {
        assert(is_line(lines[k]));
        if !is_blank(lines[k]) {
            lemma_commented_line(lines[k]);
        }
    }
    assert(are_lines(done)) by {
        assert forall|k: int| 0 <= k < done.len() - 1 implies (#[trigger] done[k])[done[k].len()
            - 1] == '\n' by {
            assert(lines[k][lines[k].len() - 1] == '\n');
        }
    }
    law_lines_split_again(done);
    assert(all_commented(done));
    assert(toggled_lines(done, true) =~= lines);
}

/// The bytes of an identifier are those of ASCII letters, digits and the
/// underscore.
pub proof fn law_identifier_bytes(c: char)
    requires
        (c as u32) < 0x80,
    ensures
        ident_byte(c as u8) <==> ('a' <= c <= 'z') || ('A' <= c <= 'Z') || ('0' <= c <= '9') || c
            == '_',
{
}

/// The word at the cursor is the longest run of identifier bytes that ends
/// there.
pub proof fn law_word_at_cursor(b: Seq<u8>, cursor: int)
    requires
        0 <= cursor <= b.len(),
    ensures
        0 <= word_begin(b, cursor) <= cursor,
        forall|k: int| word_begin(b, cursor) <= k < cursor ==> ident_byte(#[trigger] b[k]),
        word_begin(b, cursor) > 0 ==> !ident_byte(b[word_begin(b, cursor) - 1]),
    decreases cursor,
{
    if cursor > 0 && ident_byte(b[cursor - 1]) {
        law_word_at_cursor(b, cursor - 1);
    }
}

/// The lines that a range touches begin after a line feed or with the text, and
/// end with a line feed or with the text. They hold no more lines than those of
/// the range.
pub proof fn law_lines_touched(b: Seq<u8>, lo: int, hi: int)
    requires
        0 <= lo <= b.len(),
        0 <= hi <= b.len(),
    ensures
        0 <= line_begin(b, lo) <= lo,
        line_begin(b, lo) > 0 ==> b[line_begin(b, lo) - 1] == '\n' as u8,
        forall|k: int| line_begin(b, lo) <= k < lo ==> #[trigger] b[k] != '\n' as u8,
        hi <= line_close(b, hi) <= b.len(),
        line_close(b, hi) < b.len() ==> hi < line_close(b, hi) && b[line_close(b, hi) - 1]
            == '\n' as u8,
        forall|k: int| hi <= k < line_close(b, hi) - 1 ==> #[trigger] b[k] != '\n' as u8,
    decreases lo + b.len() - hi,
{
    if lo > 0 && b[lo - 1] != 0x0a {
        law_lines_touched(b, lo - 1, hi);
    } else if hi < b.len() && b[hi] != 0x0a {
        law_lines_touched(b, lo, hi + 1);
    }
}

/// The line is `indent` white-space characters, a comment mark and the rest.
pub open spec fn marked_at(line: Seq<char>, indent: int) -> bool {
    &&& 0 <= indent
    &&& indent + 3 <= line.len()
    &&& forall|k: int| 0 <= k < indent ==> is_white_space(#[trigger] line[k])
    &&& line[indent] == '-'
    &&& line[indent + 1] == '-'
    &&& line[indent + 2] == ' '
}

proof fn lemma_marked(line: Seq<char>, indent: int)
    requires
        marked_at(line, indent),
    ensures
        is_commented(line),
        !is_blank(line),
        uncommented(line) == line.take(indent) + line.skip(indent + 3),
{
    reveal_strlit("-- ");
    let ws = line.take(indent);
    let rest = line.skip(indent);
    assert(ws + rest =~= line);
    lemma_start_of(ws, rest);
    assert(rest.subrange(0, 3) =~= "-- "@);
    assert(line.subrange(indent, indent + 3) =~= "-- "@);
    assert forall|m: int| 0 <= m < indent implies !#[trigger] occurs_at(line, "-- "@, m) by {
        if occurs_at(line, "-- "@, m) {
            assert(line.subrange(m, m + 3)[0] == "-- "@[0]);
            assert(is_white_space(line[m]));
        }
    }
    lemma_first_text(line, "-- "@, 0, indent);
}

/// A line counts as commented out where two hyphens and a space follow its
/// leading white space.
pub proof fn law_comment_mark(line: Seq<char>)
    ensures
        is_commented(line) <==> exists|indent: int| marked_at(line, indent),
{
    reveal_strlit("-- ");
    if is_commented(line) {
        lemma_leading(line);
        let rest = trimmed_start(line);
        let n = line.len() - rest.len();
        assert(rest.subrange(0, 3) == "-- "@);
        assert(rest.subrange(0, 3)[0] == rest[0]);
        assert(rest.subrange(0, 3)[1] == rest[1]);
        assert(rest.subrange(0, 3)[2] == rest[2]);
        assert(line.skip(n)[0] == line[n]);
        assert(line.skip(n)[1] == line[n + 1]);
        assert(line.skip(n)[2] == line[n + 2]);
        assert(marked_at(line, n));
    }
    if exists|indent: int| marked_at(line, indent) {
        let indent = choose|indent: int| marked_at(line, indent);
        lemma_marked(line, indent);
    }
}

/// A block with a line that is neither blank nor commented out is commented out
/// line by line: a comment mark comes after the leading white space of each line
/// that is not blank, and nothing else changes.
pub proof fn law_block_is_commented_out(block: Seq<char>, bare: int, k: int)
    requires
        0 <= bare < lines_of(block).len(),
        trimmed(lines_of(block)[bare]).len() > 0,
        forall|indent: int| !marked_at(lines_of(block)[bare], indent),
        0 <= k < lines_of(block).len(),
    ensures
        lines_of(toggled(block)).len() == lines_of(block).len(),
        trimmed(lines_of(block)[k]).len() == 0 ==> lines_of(toggled(block))[k] == lines_of(
            block,
        )[k],
        ({
            let line = lines_of(block)[k];
            let out = lines_of(toggled(block))[k];
            trimmed(line).len() > 0 ==> exists|indent: int|
                #![trigger marked_at(out, indent)]
                marked_at(out, indent) && out.take(indent) + out.skip(indent + 3) == line
        }),
{
    let lines = lines_of(block);
    law_comment_mark(lines[bare]);
    assert(!is_blank(lines[bare]) && !is_commented(lines[bare]));
    assert(!all_commented(lines));
    let done = toggled_lines(lines, false);
    law_lines_make_up_text(block);
    assert forall|m: int| 0 <= m < lines.len() implies is_line(#[trigger] done[m]) && (
    lines[m][lines[m].len() - 1] == '\n' ==> done[m][done[m].len() - 1] == '\n') by {
        assert(is_line(lines[m]));
        if !is_blank(lines[m]) {
            lemma_commented_line(lines[m]);
        }
    }
    assert(are_lines(done)) by {
        assert forall|m: int| 0 <= m < done.len() - 1 implies (#[trigger] done[m])[done[m].len()
            - 1] == '\n' by {
            assert(lines[m][lines[m].len() - 1] == '\n');
        }
    }
    law_lines_split_again(done);
    let line = lines[k];
    if !is_blank(line) {
        reveal_strlit("-- ");
        lemma_leading(line);
        let n = line.len() - trimmed_start(line).len();
        let out = done[k];
        assert(out == line.take(n) + "-- "@ + line.skip(n));
        assert forall|m: int| 0 <= m < n implies is_white_space(#[trigger] out[m]) by {
            assert(out[m] == line[m]);
        }
        assert(marked_at(out, n));
        assert(out.take(n) + out.skip(n + 3) =~= line);
    }
}

/// A block whose lines are all blank or commented out is commented in: each
/// comment mark goes away, and nothing else changes.
pub proof fn law_block_is_commented_in(block: Seq<char>, indents: Seq<int>)
    requires
        indents.len() == lines_of(block).len(),
        forall|k: int|
            0 <= k < indents.len() ==> trimmed(#[trigger] lines_of(block)[k]).len() == 0
                || marked_at(lines_of(block)[k], indents[k]),
    ensures
        toggled(block) == glued(
            Seq::new(
                indents.len(),
                |k: int|
                    {
                        let line = lines_of(block)[k];
                        if trimmed(line).len() == 0 {
                            line
                        } else {
                            line.take(indents[k]) + line.skip(indents[k] + 3)
                        }
                    },
            ),
        ),
{
    let lines = lines_of(block);
    assert forall|k: int| 0 <= k < lines.len() && !is_blank(#[trigger] lines[k]) implies
        is_commented(lines[k]) by {
        lemma_marked(lines[k], indents[k]);
    }
    assert(all_commented(lines));
    let done = toggled_lines(lines, true);
    let stripped = Seq::new(
        indents.len(),
        |k: int|
            {
                let line = lines_of(block)[k];
                if trimmed(line).len() == 0 {
                    line
                } else {
                    line.take(indents[k]) + line.skip(indents[k] + 3)
                }
            },
    );
    assert forall|k: int| 0 <= k < lines.len() implies #[trigger] done[k] == stripped[k] by {
        if !is_blank(lines[k]) {
            lemma_marked(lines[k], indents[k]);
        }
    }
    assert(done =~= stripped);
}

} // verus!
