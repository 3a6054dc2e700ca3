//! Scripts built of pieces: quoted text, comments, words and compound blocks.
//! Such a script is one statement, whatever stands in its pieces.

use vstd::prelude::*;
use vstd::utf8::encode_utf8;

use crate::split::{
    block_end, blocks_after, goes_on, is_space, is_word_at, lemma_newline_at, lemma_peek,
    lemma_peek_past_block, lemma_statements_moved, lemma_token_end, lemma_trimmed_concat,
    lemma_word_stop, moved, newline_at, opened, peek, peek_past_block, quoted_end, spells,
    starts_transaction, statements, statements_from, token_end, without_last_case, word_at,
    word_byte, word_stop, BlockKind,
};
use crate::text::{
    ascii_lower, ascii_upper, lemma_trimmed_end_uppered, trimmed_end, uppered,
};
use crate::utf8::{
    byte_len, lemma_ascii_char, lemma_ascii_text, lemma_char_width, lemma_encode_concat,
    lemma_last_ascii, lemma_prefix_len, lemma_wide_char,
};

verus! {

/// The bytes of a text of ASCII characters.
pub open spec fn ascii(s: Seq<char>) -> Seq<u8> {
    s.map_values(|c: char| c as u8)
}

/// `b`, or its upper case where it is a lower-case letter.
pub open spec fn upper_byte(b: u8) -> u8 {
    if 0x61 <= b <= 0x7a {
        (b - 0x20) as u8
    } else {
        b
    }
}

/// `word`, which is in upper case, stands in `b` at `k`, in any case.
pub open spec fn stands_in(b: Seq<u8>, k: int, word: Seq<char>) -> bool {
    &&& 0 <= k
    &&& k + word.len() <= b.len()
    &&& forall|m: int| 0 <= m < word.len() ==> upper_byte(#[trigger] b[k + m]) as char == word[m]
}

/// Bytes in which nothing is quoted, commented out, separated or nested: no
/// `'`, `"`, backtick, `#` or `;`, no `--` or `/*`, and nowhere the letters of
/// `BEGIN`, `CASE` or `END`.
pub open spec fn calm(b: Seq<u8>) -> bool {
    &&& forall|i: int|
        0 <= i < b.len() ==> (#[trigger] b[i]) != 0x27 && b[i] != 0x22 && b[i] != 0x60 && b[i]
            != 0x23 && b[i] != 0x3b
    &&& forall|i: int|
        0 <= i < b.len() - 1 ==> !((#[trigger] b[i]) == 0x2d && b[i + 1] == 0x2d) && !(b[i] == 0x2f
            && b[i + 1] == 0x2a)
    &&& forall|k: int| !#[trigger] stands_in(b, k, "BEGIN"@)
    &&& forall|k: int| !#[trigger] stands_in(b, k, "CASE"@)
    &&& forall|k: int| !#[trigger] stands_in(b, k, "END"@)
}

/// `s` as it is written between two quotes `q`: `q` with `lead` before it, and
/// a backslash doubled, unless the quotes are backticks.
pub open spec fn written(s: Seq<u8>, q: u8, lead: u8) -> Seq<u8>
    decreases s.len(),
{
    if s.len() == 0 {
        seq![]
    } else {
        let first = if s[0] == q {
            seq![lead, q]
        } else if s[0] == 0x5c && q != 0x60 {
            seq![0x5cu8, 0x5cu8]
        } else {
            seq![s[0]]
        };
        first + written(s.drop_first(), q, lead)
    }
}

/// A piece of a script.
pub enum Piece {
    /// Words, numbers and punctuation.
    Words(Seq<u8>),
    /// A name after `@`, `$` or `.`, which may be a keyword.
    Named(u8, Seq<u8>),
    /// A string or a quoted identifier: the quote, what is quoted, and what is
    /// written before a quote inside it.
    Quoted(u8, Seq<u8>, u8),
    /// A comment up to the end of the line, after `#` or else after `--`.
    Line(bool, Seq<u8>),
    /// A comment between `/*` and `*/`.
    Comment(Seq<u8>),
    /// `;` inside a compound block.
    Separator,
    /// The start of a compound block, and the words it starts with.
    Begin(Seq<u8>),
    /// The start of a `CASE`.
    Case,
    /// The end of a `CASE` expression.
    CaseEnd,
    /// The end of an inner compound block.
    End,
    /// The ends of inner control flow.
    EndIf,
    EndLoop,
    EndWhile,
    EndRepeat,
}

/// The bytes of a piece.
pub open spec fn bytes_of(p: Piece) -> Seq<u8> {
    match p {
        Piece::Words(w) => w + ascii(" "@),
        Piece::Named(mark, w) => seq![mark] + w + ascii(" "@),
        Piece::Quoted(q, s, lead) => seq![q] + written(s, q, lead) + seq![q] + ascii(" "@),
        Piece::Line(hash, s) => (if hash {
            ascii("#"@)
        } else {
            ascii("--"@)
        }) + s + ascii("\n"@),
        Piece::Comment(s) => ascii("/*"@) + s + ascii("*/ "@),
        Piece::Separator => ascii("; "@),
        Piece::Begin(w) => ascii("BEGIN "@) + w + ascii(" "@),
        Piece::Case => ascii("CASE "@),
        Piece::CaseEnd => ascii("END , "@),
        Piece::End => ascii("END; "@),
        Piece::EndIf => ascii("END IF; "@),
        Piece::EndLoop => ascii("END LOOP; "@),
        Piece::EndWhile => ascii("END WHILE; "@),
        Piece::EndRepeat => ascii("END REPEAT; "@),
    }
}

/// What may stand in a piece.
pub open spec fn is_valid(p: Piece) -> bool {
    match p {
        Piece::Words(w) => calm(w),
        Piece::Named(mark, w) => (mark == 0x40 || mark == 0x24 || mark == 0x2e) && forall|i: int|
            0 <= i < w.len() ==> {
                let b = #[trigger] w[i];
                0x41 <= b <= 0x5a || 0x61 <= b <= 0x7a || b == 0x5f || 0x30 <= b <= 0x39
            },
        Piece::Quoted(q, s, lead) => (q == 0x27 || q == 0x22) && (lead == q || lead == 0x5c) || q
            == 0x60 && lead == q,
        Piece::Line(hash, s) => forall|i: int| 0 <= i < s.len() ==> (#[trigger] s[i]) != 0x0a,
        Piece::Comment(s) => forall|i: int|
            0 <= i < s.len() - 1 ==> !((#[trigger] s[i]) == 0x2a && s[i + 1] == 0x2f),
        Piece::Begin(w) => calm(w) && w.len() > 0 && (0x41 <= w[0] <= 0x5a || 0x61 <= w[0] <= 0x7a)
            && !stands_in(w, 0, "WORK"@) && !stands_in(w, 0, "TRANSACTION"@),
        _ => true,
    }
}

/// A piece may stand where these blocks are open: ends match what they end, and
/// a `;` stands inside a compound block.
pub open spec fn may_stand(p: Piece, stack: Seq<BlockKind>) -> bool {
    match p {
        Piece::Separator | Piece::EndIf | Piece::EndLoop | Piece::EndWhile | Piece::EndRepeat =>
            stack.contains(BlockKind::Begin),
        Piece::CaseEnd => stack.len() > 0 && stack.last() == BlockKind::Case,
        Piece::End => stack.len() > 0 && stack.last() == BlockKind::Begin
            && stack.drop_last().contains(BlockKind::Begin),
        _ => true,
    }
}

/// The blocks that are open after a piece.
pub open spec fn stack_after(p: Piece, stack: Seq<BlockKind>) -> Seq<BlockKind> {
    match p {
        Piece::Begin(_) => stack.push(BlockKind::Begin),
        Piece::Case => stack.push(BlockKind::Case),
        Piece::CaseEnd | Piece::End => stack.drop_last(),
        _ => stack,
    }
}

/// The bytes of several pieces.
pub open spec fn script_bytes(ps: Seq<Piece>) -> Seq<u8>
    decreases ps.len(),
{
    if ps.len() == 0 {
        seq![]
    } else {
        bytes_of(ps[0]) + script_bytes(ps.drop_first())
    }
}

/// The pieces can stand one after the other where `from` is open, and leave `to`
/// open.
pub open spec fn nested(ps: Seq<Piece>, from: Seq<BlockKind>, to: Seq<BlockKind>) -> bool
    decreases ps.len(),
{
    if ps.len() == 0 {
        from == to
    } else {
        is_valid(ps[0]) && may_stand(ps[0], from) && nested(
            ps.drop_first(),
            stack_after(ps[0], from),
            to,
        )
    }
}

/// `p` stands in `c` at `i`.
spec fn holds(c: Seq<u8>, i: int, p: Seq<u8>) -> bool {
    &&& 0 <= i
    &&& i + p.len() <= c.len()
    &&& forall|k: int| 0 <= k < p.len() ==> c[i + k] == #[trigger] p[k]
}

/// Reading goes on behind a white space.
proof fn lemma_space(c: Seq<u8>, end: int, i: int, open: Option<int>, stack: Seq<BlockKind>)
    requires
        0 <= i < c.len(),
        is_space(c[i]),
    ensures
        statements_from(c, end, i, open, stack) == statements_from(c, end, i + 1, open, stack),
{
}

/// The letters of a word that does not spell a keyword do not stand in it.
proof fn lemma_not_spelled(c: Seq<u8>, i: int, n: int, w: Seq<u8>, from: int, word: Seq<char>)
    requires
        0 <= i <= i + n <= c.len(),
        0 <= from,
        from + n <= w.len(),
        forall|k: int| 0 <= k < n ==> c[i + k] == #[trigger] w[from + k],
        !stands_in(w, from, word),
        forall|m: int| 0 <= m < word.len() ==> 'A' <= #[trigger] word[m] <= 'Z',
    ensures
        !spells(c.subrange(i, i + n), word),
{
    let x = c.subrange(i, i + n);
    if spells(x, word) {
        assert forall|m: int| 0 <= m < word.len() implies upper_byte(#[trigger] w[from + m]) as char
            == word[m] by {
            assert(x[m] == c[i + m]);
            assert(ascii_lower(x[m] as char) == ascii_lower(word[m]));
            assert('A' <= word[m] <= 'Z');
        }
        assert(stands_in(w, from, word));
    }
}

proof fn lemma_keyword_letters()
    ensures
        forall|m: int| 0 <= m < "BEGIN"@.len() ==> 'A' <= #[trigger] "BEGIN"@[m] <= 'Z',
        forall|m: int| 0 <= m < "CASE"@.len() ==> 'A' <= #[trigger] "CASE"@[m] <= 'Z',
        forall|m: int| 0 <= m < "END"@.len() ==> 'A' <= #[trigger] "END"@[m] <= 'Z',
        forall|m: int| 0 <= m < "WORK"@.len() ==> 'A' <= #[trigger] "WORK"@[m] <= 'Z',
        forall|m: int| 0 <= m < "TRANSACTION"@.len() ==> 'A' <= #[trigger] "TRANSACTION"@[m] <= 'Z',
{
    reveal_strlit("BEGIN");
    reveal_strlit("CASE");
    reveal_strlit("END");
    reveal_strlit("WORK");
    reveal_strlit("TRANSACTION");
}

proof fn lemma_word_in(c: Seq<u8>, i: int, j: int)
    requires
        0 <= i <= j < c.len(),
        !word_byte(c[j]),
    ensures
        i <= word_stop(c, i) <= j,
        forall|k: int| i <= k < word_stop(c, i) ==> word_byte(#[trigger] c[k]),
    decreases j - i,
{
    if word_byte(c[i]) {
        lemma_word_in(c, i + 1, j);
    }
}

/// Reading goes on behind words that stand at `i`, a part of `w` from `from` on,
/// and end in front of a space.
proof fn lemma_calm(
    c: Seq<u8>,
    end: int,
    i: int,
    w: Seq<u8>,
    from: int,
    open: Option<int>,
    stack: Seq<BlockKind>,
)
    requires
        calm(w),
        0 <= from <= w.len(),
        0 <= i,
        i + (w.len() - from) < c.len(),
        forall|k: int| from <= k < w.len() ==> c[i + (k - from)] == #[trigger] w[k],
        c[i + (w.len() - from)] == 0x20,
        open is Some || (from < w.len() && !is_space(w[from])),
    ensures
        statements_from(c, end, i, open, stack) == statements_from(
            c,
            end,
            i + (w.len() - from) + 1,
            Some(opened(open, i)),
            stack,
        ),
    decreases w.len() - from,
{
    let j = i + (w.len() - from);
    if from == w.len() {
        lemma_space(c, end, i, open, stack);
    } else {
        assert(c[i] == w[from]);
        if from + 1 < w.len() {
            assert(c[i + 1] == w[from + 1]);
        }
        lemma_token_end(c, i);
        let start = opened(open, i);
        if is_space(c[i]) {
            lemma_space(c, end, i, open, stack);
            assert forall|k: int| from + 1 <= k < w.len() implies c[i + 1 + (k - (from + 1))]
                == #[trigger] w[k] by {
                assert(c[i + (k - from)] == w[k]);
            }
            lemma_calm(c, end, i + 1, w, from + 1, open, stack);
        } else if is_word_at(c, i) {
            lemma_word_in(c, i, j);
            let n = word_stop(c, i) - i;
            lemma_keyword_letters();
            assert forall|k: int| 0 <= k < n implies c[i + k] == #[trigger] w[from + k] by {
                assert(c[i + ((from + k) - from)] == w[from + k]);
            }
            lemma_not_spelled(c, i, n, w, from, "BEGIN"@);
            lemma_not_spelled(c, i, n, w, from, "CASE"@);
            lemma_not_spelled(c, i, n, w, from, "END"@);
            assert forall|k: int| from + n <= k < w.len() implies c[i + n + (k - (from + n))]
                == #[trigger] w[k] by {
                assert(c[i + (k - from)] == w[k]);
            }
            lemma_calm(c, end, i + n, w, from + n, Some(start), stack);
        } else {
            assert(token_end(c, i) == i + 1);
            assert forall|k: int| from + 1 <= k < w.len() implies c[i + 1 + (k - (from + 1))]
                == #[trigger] w[k] by {
                assert(c[i + (k - from)] == w[k]);
            }
            lemma_calm(c, end, i + 1, w, from + 1, Some(start), stack);
        }
    }
}

/// Reading goes on behind a run of word bytes that follows a word byte or one of
/// `@`, `$` and `.`, and ends in front of a space.
proof fn lemma_named(c: Seq<u8>, end: int, i: int, j: int, open: Option<int>, stack: Seq<BlockKind>)
    requires
        0 < i <= j < c.len(),
        word_byte(c[i - 1]) || c[i - 1] == 0x40 || c[i - 1] == 0x24 || c[i - 1] == 0x2e,
        forall|k: int| i <= k < j ==> word_byte(#[trigger] c[k]),
        c[j] == 0x20,
        open is Some,
    ensures
        statements_from(c, end, i, open, stack) == statements_from(c, end, j + 1, open, stack),
    decreases j - i,
{
    if i < j {
        assert(word_byte(c[i]));
        lemma_token_end(c, i);
        assert(token_end(c, i) == i + 1);
        lemma_named(c, end, i + 1, j, open, stack);
    }
}

proof fn lemma_quoted(c: Seq<u8>, i: int, s: Seq<u8>, q: u8, lead: u8)
    requires
        (q == 0x27 || q == 0x22) && (lead == q || lead == 0x5c) || q == 0x60 && lead == q,
        holds(c, i, written(s, q, lead) + seq![q, 0x20u8]),
    ensures
        quoted_end(c, i, q, q != 0x60) == i + written(s, q, lead).len() + 1,
    decreases s.len(),
{
    let body = written(s, q, lead) + seq![q, 0x20u8];
    assert(c[i + 0] == body[0]);
    assert(c[i + 1] == body[1]);
    if s.len() > 0 {
        let rest = written(s.drop_first(), q, lead);
        let n: int = if s[0] == q || (s[0] == 0x5c && q != 0x60) {
            2
        } else {
            1
        };
        let more = rest + seq![q, 0x20u8];
        assert forall|k: int| 0 <= k < more.len() implies c[i + n + k] == #[trigger] more[k] by {
            assert(body[n + k] == more[k]);
            assert(c[i + (n + k)] == body[n + k]);
        }
        lemma_quoted(c, i + n, s.drop_first(), q, lead);
    }
}

proof fn lemma_line(c: Seq<u8>, i: int, j: int)
    requires
        0 <= i <= j < c.len(),
        c[j] == 0x0a,
        forall|k: int| i <= k < j ==> #[trigger] c[k] != 0x0a,
    ensures
        newline_at(c, i) == j,
    decreases j - i,
{
    if i < j {
        lemma_line(c, i + 1, j);
    }
}

proof fn lemma_comment(c: Seq<u8>, i: int, j: int)
    requires
        0 <= i <= j,
        j + 1 < c.len(),
        c[j] == 0x2a,
        c[j + 1] == 0x2f,
        forall|k: int| i <= k < j ==> !(#[trigger] c[k] == 0x2a && c[k + 1] == 0x2f),
    ensures
        block_end(c, i) == j + 2,
    decreases j - i,
{
    if i < j {
        lemma_comment(c, i + 1, j);
    }
}

/// Reading goes on behind a keyword in upper case that stands at `i`, with the
/// blocks that it opens or closes.
proof fn lemma_keyword(
    c: Seq<u8>,
    end: int,
    i: int,
    word: Seq<char>,
    open: Option<int>,
    stack: Seq<BlockKind>,
)
    requires
        word.len() > 0,
        holds(c, i, ascii(word)),
        i + word.len() < c.len(),
        !word_byte(c[i + word.len()]),
        i == 0 || c[i - 1] == 0x20 || c[i - 1] == 0x0a,
        forall|m: int| 0 <= m < word.len() ==> 'A' <= #[trigger] word[m] <= 'Z',
    ensures
        statements_from(c, end, i, open, stack) == statements_from(
            c,
            end,
            i + word.len(),
            Some(opened(open, i)),
            blocks_after(c, i + word.len(), word_at(c, i), stack),
        ),
        word_at(c, i) == ascii(word),
        spells(ascii(word), word),
{
    let n = word.len() as int;
    assert forall|k: int| i <= k < i + n implies word_byte(#[trigger] c[k]) by {
        assert(c[i + (k - i)] == ascii(word)[k - i]);
        assert('A' <= word[k - i] <= 'Z');
    }
    lemma_stop(c, i, i + n);
    assert(c[i + 0] == ascii(word)[0]);
    assert('A' <= word[0] <= 'Z');
    assert(word_at(c, i) =~= ascii(word)) by {
        assert forall|k: int| 0 <= k < n implies word_at(c, i)[k] == ascii(word)[k] by {
            assert(c[i + k] == ascii(word)[k]);
        }
    }
    assert forall|k: int| 0 <= k < n implies ascii_lower(#[trigger] ascii(word)[k] as char)
        == ascii_lower(word[k]) by {
        assert('A' <= word[k] <= 'Z');
    }
    lemma_token_end(c, i);
    assert(is_word_at(c, i));
}

proof fn lemma_stop(c: Seq<u8>, i: int, j: int)
    requires
        0 <= i <= j < c.len(),
        forall|k: int| i <= k < j ==> word_byte(#[trigger] c[k]),
        !word_byte(c[j]),
    ensures
        word_stop(c, i) == j,
    decreases j - i,
{
    if i < j {
        lemma_stop(c, i + 1, j);
    }
}

proof fn lemma_end_words()
    ensures
        ascii("END"@).len() == 3,
        !spells(ascii("END"@), "BEGIN"@),
        !spells(ascii("END"@), "CASE"@),
        forall|m: int| 0 <= m < "END"@.len() ==> 'A' <= #[trigger] "END"@[m] <= 'Z',
        !spells(Seq::<u8>::empty(), "IF"@),
        !spells(Seq::<u8>::empty(), "LOOP"@),
        !spells(Seq::<u8>::empty(), "WHILE"@),
        !spells(Seq::<u8>::empty(), "REPEAT"@),
        !spells(Seq::<u8>::empty(), "CASE"@),
{
    reveal_strlit("END");
    reveal_strlit("BEGIN");
    reveal_strlit("CASE");
    reveal_strlit("IF");
    reveal_strlit("LOOP");
    reveal_strlit("WHILE");
    reveal_strlit("REPEAT");
}

/// `END` that is followed by no word closes the innermost block.
proof fn lemma_bare_end(
    c: Seq<u8>,
    end: int,
    i: int,
    gap: int,
    open: Option<int>,
    stack: Seq<BlockKind>,
)
    requires
        holds(c, i, ascii("END"@)),
        0 <= gap <= 1,
        i + 3 + gap < c.len(),
        gap == 1 ==> c[i + 3] == 0x20,
        c[i + 3 + gap] == 0x2c || c[i + 3 + gap] == 0x3b,
        i == 0 || c[i - 1] == 0x20 || c[i - 1] == 0x0a,
        stack.len() > 0,
    ensures
        statements_from(c, end, i, open, stack) == statements_from(
            c,
            end,
            i + 3 + gap,
            Some(opened(open, i)),
            stack.drop_last(),
        ),
{
    lemma_end_words();
    lemma_keyword(c, end, i, "END"@, open, stack);
    let after = i + 3;
    let next = after + gap;
    assert(peek(c, next) == next);
    assert(peek(c, after) == next);
    assert(word_at(c, next) =~= Seq::<u8>::empty());
    if gap == 1 {
        lemma_space(c, end, after, Some(opened(open, i)), stack.drop_last());
    }
}

/// The word after an `END` that ends control flow opens and closes nothing.
proof fn lemma_flow_words(what: Seq<char>)
    requires
        what == "IF"@ || what == "LOOP"@ || what == "WHILE"@ || what == "REPEAT"@,
    ensures
        2 <= what.len() <= 6,
        !spells(ascii(what), "BEGIN"@),
        !spells(ascii(what), "CASE"@),
        !spells(ascii(what), "END"@),
        forall|m: int| 0 <= m < what.len() ==> 'A' <= #[trigger] what[m] <= 'Z',
{
    reveal_strlit("IF");
    reveal_strlit("LOOP");
    reveal_strlit("WHILE");
    reveal_strlit("REPEAT");
    reveal_strlit("CASE");
    reveal_strlit("BEGIN");
    reveal_strlit("END");
    let w = ascii(what);
    assert(w.len() == what.len());
    assert(w[0] == what[0] as u8);
    if spells(w, "CASE"@) {
        assert(ascii_lower(w[0] as char) == ascii_lower("CASE"@[0]));
    }
    if spells(w, "BEGIN"@) {
        assert(ascii_lower(w[0] as char) == ascii_lower("BEGIN"@[0]));
    }
}

/// `END` with the keyword of the control flow that it ends closes no block.
proof fn lemma_end_of(
    c: Seq<u8>,
    end: int,
    i: int,
    what: Seq<char>,
    open: Option<int>,
    stack: Seq<BlockKind>,
)
    requires
        what == "IF"@ || what == "LOOP"@ || what == "WHILE"@ || what == "REPEAT"@,
        holds(c, i, ascii("END "@ + what + "; "@)),
        i == 0 || c[i - 1] == 0x20 || c[i - 1] == 0x0a,
        stack.contains(BlockKind::Begin),
    ensures
        statements_from(c, end, i, open, stack) == statements_from(
            c,
            end,
            i + 6 + what.len(),
            Some(opened(open, i)),
            stack,
        ),
{
    lemma_end_words();
    lemma_flow_words(what);
    reveal_strlit("END ");
    reveal_strlit("END");
    reveal_strlit("; ");
    let all = "END "@ + what + "; "@;
    let n = what.len() as int;
    assert forall|k: int| 0 <= k < all.len() implies c[i + k] == (#[trigger] all[k]) as u8 by {
        assert(ascii(all)[k] == all[k] as u8);
        assert(c[i + k] == ascii(all)[k]);
    }
    assert(all[3] == ' ' && all[4 + n] == ';' && all[5 + n] == ' ');
    let mid = i + 4;
    let sep = i + 4 + n;
    assert(c[i + 3] == 0x20);
    assert(c[i + (4 + n)] == 0x3b);
    assert(c[i + (5 + n)] == 0x20);
    assert(holds(c, i, ascii("END"@))) by {
        assert forall|k: int| 0 <= k < ascii("END"@).len() implies c[i + k]
            == #[trigger] ascii("END"@)[k] by {
            assert(all[k] == "END"@[k]);
        }
    }
    assert(holds(c, mid, ascii(what))) by {
        assert forall|k: int| 0 <= k < ascii(what).len() implies c[mid + k]
            == #[trigger] ascii(what)[k] by {
            assert(all[4 + k] == what[k]);
            assert(c[i + (4 + k)] == all[4 + k] as u8);
        }
    }
    let start = opened(open, i);
    lemma_keyword(c, end, i, "END"@, open, stack);
    lemma_keyword(c, end, mid, what, Some(start), stack);
    assert(c[mid + 0] == ascii(what)[0]);
    assert('A' <= what[0] <= 'Z');
    assert(peek(c, mid) == mid);
    assert(peek(c, i + 3) == mid);
    assert(blocks_after(c, i + 3, ascii("END"@), stack) == stack);
    lemma_space(c, end, i + 3, Some(start), stack);
    assert(blocks_after(c, sep, ascii(what), stack) == stack);
    lemma_token_end(c, sep);
    assert(token_end(c, sep) == sep + 1);
    lemma_space(c, end, sep + 1, Some(start), stack);
}

/// Reading goes on behind a piece, with the blocks that it leaves open.
proof fn lemma_piece(
    c: Seq<u8>,
    end: int,
    i: int,
    p: Piece,
    open: Option<int>,
    stack: Seq<BlockKind>,
)
    requires
        is_valid(p),
        may_stand(p, stack),
        holds(c, i, bytes_of(p)),
        i == 0 || c[i - 1] == 0x20 || c[i - 1] == 0x0a,
        open is Some || !is_space(bytes_of(p)[0]),
    ensures
        statements_from(c, end, i, open, stack) == statements_from(
            c,
            end,
            i + bytes_of(p).len(),
            Some(opened(open, i)),
            stack_after(p, stack),
        ),
        bytes_of(p).len() > 0,
        bytes_of(p).last() == 0x20 || bytes_of(p).last() == 0x0a,
{
    reveal_strlit(" ");
    reveal_strlit("#");
    reveal_strlit("--");
    reveal_strlit("\n");
    reveal_strlit("/*");
    reveal_strlit("*/ ");
    reveal_strlit("; ");
    let b = bytes_of(p);
    let n = b.len() as int;
    let start = opened(open, i);
    assert forall|k: int| 0 <= k < n implies c[i + k] == #[trigger] b[k] by {}
    match p {
        Piece::Words(w) => {
            assert forall|k: int| 0 <= k < w.len() implies c[i + (k - 0)] == #[trigger] w[k] by {
                assert(b[k] == w[k]);
            }
            assert(b[n - 1] == 0x20);
            assert(c[i + (n - 1)] == b[n - 1]);
            if w.len() > 0 {
                assert(b[0] == w[0]);
            }
            lemma_calm(c, end, i, w, 0, open, stack);
        },
        Piece::Named(mark, w) => {
            assert(b[0] == mark);
            assert(c[i + 0] == b[0]);
            lemma_token_end(c, i);
            assert(token_end(c, i) == i + 1);
            assert(b[n - 1] == 0x20);
            assert(c[i + (n - 1)] == b[n - 1]);
            assert forall|k: int| i + 1 <= k < i + n - 1 implies word_byte(#[trigger] c[k]) by {
                assert(b[k - i] == w[k - i - 1]);
                assert(c[i + (k - i)] == b[k - i]);
            }
            lemma_named(c, end, i + 1, i + n - 1, Some(start), stack);
        },
        Piece::Quoted(q, s, lead) => {
            let body = written(s, q, lead) + seq![q, 0x20u8];
            assert(b =~= seq![q] + body);
            assert(b[0] == q);
            assert(c[i + 0] == b[0]);
            assert forall|k: int| 0 <= k < body.len() implies c[i + 1 + k] == #[trigger] body[k] by {
                assert(b[1 + k] == body[k]);
                assert(c[i + (1 + k)] == b[1 + k]);
            }
            lemma_quoted(c, i + 1, s, q, lead);
            lemma_token_end(c, i);
            assert(token_end(c, i) == i + n - 1);
            assert(b[n - 1] == 0x20);
            assert(c[i + (n - 1)] == b[n - 1]);
            lemma_space(c, end, i + n - 1, Some(start), stack);
        },
        Piece::Line(hash, s) => {
            let m: int = if hash {
                1
            } else {
                2
            };
            assert(n == m + s.len() + 1);
            assert(b[n - 1] == 0x0a);
            assert(c[i + (n - 1)] == b[n - 1]);
            assert(c[i + 0] == b[0]);
            if !hash {
                assert(b[1] == 0x2d);
                assert(c[i + 1] == b[1]);
            }
            assert forall|k: int| i + m <= k < i + n - 1 implies #[trigger] c[k] != 0x0a by {
                assert(b[k - i] == s[k - i - m]);
                assert(c[i + (k - i)] == b[k - i]);
            }
            lemma_line(c, i + m, i + n - 1);
            lemma_token_end(c, i);
            assert(token_end(c, i) == i + n);
        },
        Piece::Comment(s) => {
            assert(n == s.len() + 5);
            assert(b[0] == 0x2f && b[1] == 0x2a);
            assert(c[i + 0] == b[0]);
            assert(c[i + 1] == b[1]);
            let j = i + 2 + s.len();
            assert(b[n - 3] == 0x2a && b[n - 2] == 0x2f && b[n - 1] == 0x20);
            assert(c[i + (n - 3)] == b[n - 3]);
            assert(c[i + (n - 2)] == b[n - 2]);
            assert(c[i + (n - 1)] == b[n - 1]);
            assert forall|k: int| i + 2 <= k < j implies !(#[trigger] c[k] == 0x2a && c[k + 1]
                == 0x2f) by {
                assert(b[k - i] == s[k - i - 2]);
                assert(c[i + (k - i)] == b[k - i]);
                assert(c[i + (k + 1 - i)] == b[k + 1 - i]);
                if k + 1 < j {
                    assert(b[k + 1 - i] == s[k + 1 - i - 2]);
                }
            }
            lemma_comment(c, i + 2, j);
            lemma_token_end(c, i);
            assert(token_end(c, i) == i + n - 1);
            lemma_space(c, end, i + n - 1, Some(start), stack);
        },
        Piece::Separator => {
            assert(b[0] == 0x3b && b[1] == 0x20);
            assert(c[i + 0] == b[0]);
            assert(c[i + 1] == b[1]);
            lemma_token_end(c, i);
            assert(token_end(c, i) == i + 1);
            lemma_space(c, end, i + 1, Some(start), stack);
        },
        Piece::Begin(w) => {
            lemma_begin(c, end, i, w, open, stack);
            assert(b[n - 1] == 0x20);
        },
        Piece::Case => {
            reveal_strlit("CASE ");
            reveal_strlit("CASE");
            reveal_strlit("BEGIN");
            assert(b[4] == 0x20);
            assert(c[i + 4] == b[4]);
            assert forall|k: int| 0 <= k < ascii("CASE"@).len() implies c[i + k]
                == #[trigger] ascii("CASE"@)[k] by {
                assert(b[k] == "CASE "@[k] as u8);
                assert("CASE"@[k] == "CASE "@[k]);
                assert(c[i + k] == b[k]);
            }
            lemma_keyword_letters();
            lemma_keyword(c, end, i, "CASE"@, open, stack);
            assert(!spells(ascii("CASE"@), "BEGIN"@));
            lemma_space(c, end, i + 4, Some(start), stack.push(BlockKind::Case));
        },
        Piece::CaseEnd => {
            reveal_strlit("END , ");
            reveal_strlit("END");
            assert(b[3] == 0x20 && b[4] == 0x2c && b[5] == 0x20);
            assert(c[i + 3] == b[3]);
            assert(c[i + 4] == b[4]);
            assert(c[i + 5] == b[5]);
            assert forall|k: int| 0 <= k < ascii("END"@).len() implies c[i + k]
                == #[trigger] ascii("END"@)[k] by {
                assert(b[k] == "END , "@[k] as u8);
                assert("END"@[k] == "END , "@[k]);
                assert(c[i + k] == b[k]);
            }
            lemma_bare_end(c, end, i, 1, open, stack);
            lemma_token_end(c, i + 4);
            assert(token_end(c, i + 4) == i + 5);
            lemma_space(c, end, i + 5, Some(start), stack.drop_last());
        },
        Piece::End => {
            reveal_strlit("END; ");
            reveal_strlit("END");
            assert(b[3] == 0x3b && b[4] == 0x20);
            assert(c[i + 3] == b[3]);
            assert(c[i + 4] == b[4]);
            assert forall|k: int| 0 <= k < ascii("END"@).len() implies c[i + k]
                == #[trigger] ascii("END"@)[k] by {
                assert(b[k] == "END; "@[k] as u8);
                assert("END"@[k] == "END; "@[k]);
                assert(c[i + k] == b[k]);
            }
            lemma_bare_end(c, end, i, 0, open, stack);
            lemma_token_end(c, i + 3);
            assert(token_end(c, i + 3) == i + 4);
            lemma_space(c, end, i + 4, Some(start), stack.drop_last());
        },
        Piece::EndIf => {
            reveal_strlit("END IF; ");
            reveal_strlit("END ");
            reveal_strlit("IF");
            assert("END "@ + "IF"@ + "; "@ =~= "END IF; "@);
            lemma_end_of(c, end, i, "IF"@, open, stack);
            assert(b[n - 1] == 0x20);
        },
        Piece::EndLoop => {
            reveal_strlit("END LOOP; ");
            reveal_strlit("END ");
            reveal_strlit("LOOP");
            assert("END "@ + "LOOP"@ + "; "@ =~= "END LOOP; "@);
            lemma_end_of(c, end, i, "LOOP"@, open, stack);
            assert(b[n - 1] == 0x20);
        },
        Piece::EndWhile => {
            reveal_strlit("END WHILE; ");
            reveal_strlit("END ");
            reveal_strlit("WHILE");
            assert("END "@ + "WHILE"@ + "; "@ =~= "END WHILE; "@);
            lemma_end_of(c, end, i, "WHILE"@, open, stack);
            assert(b[n - 1] == 0x20);
        },
        Piece::EndRepeat => {
            reveal_strlit("END REPEAT; ");
            reveal_strlit("END ");
            reveal_strlit("REPEAT");
            assert("END "@ + "REPEAT"@ + "; "@ =~= "END REPEAT; "@);
            lemma_end_of(c, end, i, "REPEAT"@, open, stack);
            assert(b[n - 1] == 0x20);
        },
    }
}

proof fn lemma_begin(
    c: Seq<u8>,
    end: int,
    i: int,
    w: Seq<u8>,
    open: Option<int>,
    stack: Seq<BlockKind>,
)
    requires
        is_valid(Piece::Begin(w)),
        holds(c, i, bytes_of(Piece::Begin(w))),
        i == 0 || c[i - 1] == 0x20 || c[i - 1] == 0x0a,
    ensures
        statements_from(c, end, i, open, stack) == statements_from(
            c,
            end,
            i + bytes_of(Piece::Begin(w)).len(),
            Some(opened(open, i)),
            stack.push(BlockKind::Begin),
        ),
{
    reveal_strlit("BEGIN ");
    reveal_strlit("BEGIN");
    reveal_strlit(" ");
    let b = bytes_of(Piece::Begin(w));
    let n = b.len() as int;
    let start = opened(open, i);
    assert(n == w.len() + 7);
    assert forall|k: int| 0 <= k < n implies c[i + k] == #[trigger] b[k] by {}
    assert(b[5] == 0x20 && b[n - 1] == 0x20);
    assert(c[i + 5] == b[5]);
    assert(c[i + (n - 1)] == b[n - 1]);
    assert forall|k: int| 0 <= k < ascii("BEGIN"@).len() implies c[i + k]
        == #[trigger] ascii("BEGIN"@)[k] by {
        assert(b[k] == "BEGIN "@[k] as u8);
        assert("BEGIN"@[k] == "BEGIN "@[k]);
        assert(c[i + k] == b[k]);
    }
    lemma_keyword_letters();
    lemma_keyword(c, end, i, "BEGIN"@, open, stack);
    let at = i + 6;
    assert forall|k: int| 0 <= k < w.len() implies c[at + k] == #[trigger] w[k] by {
        assert(b[6 + k] == w[k]);
        assert(c[i + (6 + k)] == b[6 + k]);
    }
    assert(c[at + 0] == w[0]);
    assert(peek(c, at) == at);
    assert(peek(c, i + 5) == at);
    lemma_word_in(c, at, i + n - 1);
    let size = word_stop(c, at) - at;
    assert forall|k: int| 0 <= k < size implies c[at + k] == #[trigger] w[0 + k] by {
        assert(c[at + k] == w[k]);
    }
    lemma_not_spelled(c, at, size, w, 0, "WORK"@);
    lemma_not_spelled(c, at, size, w, 0, "TRANSACTION"@);
    assert(!starts_transaction(c, i + 5));
    let inner = stack.push(BlockKind::Begin);
    lemma_space(c, end, i + 5, Some(start), inner);
    assert forall|k: int| 0 <= k < w.len() implies c[at + (k - 0)] == #[trigger] w[k] by {
        assert(c[at + k] == w[k]);
    }
    lemma_calm(c, end, at, w, 0, Some(start), inner);
}

/// Reading goes on behind several pieces, with the blocks that they leave open.
proof fn lemma_pieces(
    c: Seq<u8>,
    end: int,
    i: int,
    ps: Seq<Piece>,
    open: Option<int>,
    from: Seq<BlockKind>,
    to: Seq<BlockKind>,
)
    requires
        nested(ps, from, to),
        holds(c, i, script_bytes(ps)),
        i == 0 || c[i - 1] == 0x20 || c[i - 1] == 0x0a,
        ps.len() > 0,
        open is Some || !is_space(bytes_of(ps[0])[0]),
    ensures
        statements_from(c, end, i, open, from) == statements_from(
            c,
            end,
            i + script_bytes(ps).len(),
            Some(opened(open, i)),
            to,
        ),
        script_bytes(ps).len() > 0,
        script_bytes(ps).last() == 0x20 || script_bytes(ps).last() == 0x0a,
    decreases ps.len(),
{
    reveal_with_fuel(nested, 2);
    reveal_with_fuel(script_bytes, 2);
    let b = bytes_of(ps[0]);
    let rest = ps.drop_first();
    let more = script_bytes(rest);
    let all = script_bytes(ps);
    assert(holds(c, i, b)) by {
        assert forall|k: int| 0 <= k < b.len() implies c[i + k] == #[trigger] b[k] by {
            assert(all[k] == b[k]);
        }
    }
    lemma_piece(c, end, i, ps[0], open, from);
    let at = i + b.len();
    assert(c[i + (b.len() - 1)] == b[b.len() - 1]);
    assert(holds(c, at, more)) by {
        assert forall|k: int| 0 <= k < more.len() implies c[at + k] == #[trigger] more[k] by {
            assert(all[b.len() + k] == more[k]);
            assert(c[i + (b.len() + k)] == all[b.len() + k]);
        }
    }
    if rest.len() > 0 {
        lemma_pieces(
            c,
            end,
            at,
            rest,
            Some(opened(open, i)),
            stack_after(ps[0], from),
            to,
        );
        assert(all.last() == more.last());
    } else {
        assert(all =~= b);
    }
}

/// How a script of pieces is closed: with a `;` where no block is open, and with
/// an `END;` where one compound block is.
pub open spec fn closing(to: Seq<BlockKind>) -> Seq<u8> {
    if to.len() == 0 {
        ascii(";"@)
    } else {
        ascii("END;"@)
    }
}

/// A script of pieces that do not separate is one statement, whatever is quoted,
/// commented out or nested in them, and what follows it is split as if it stood
/// alone: a `;` counts neither inside a string, a quoted identifier or a comment
/// nor inside a compound block, and a keyword neither there nor in a name.
pub proof fn law_pieces_are_one_statement(
    s: Seq<char>,
    t: Seq<char>,
    ps: Seq<Piece>,
    to: Seq<BlockKind>,
)
    requires
        ps.len() > 0,
        nested(ps, seq![], to),
        to == Seq::<BlockKind>::empty() || to == seq![BlockKind::Begin],
        !is_space(bytes_of(ps[0])[0]),
        encode_utf8(s) == script_bytes(ps) + closing(to),
    ensures
        statements(s + t) == seq![(0int, byte_len(s))] + moved(statements(t), byte_len(s)),
{
    reveal_strlit(";");
    reveal_strlit("END;");
    reveal_strlit("END");
    lemma_encode_concat(s, t);
    let a = encode_utf8(s);
    let b = encode_utf8(t);
    let c = a + b;
    let n = a.len() as int;
    let end = byte_len(trimmed_end(s + t));
    let body = script_bytes(ps);
    let m = body.len() as int;
    assert(holds(c, 0, body)) by {
        assert forall|k: int| 0 <= k < body.len() implies c[0 + k] == #[trigger] body[k] by {
            assert(a[k] == body[k]);
        }
    }
    lemma_pieces(c, end, 0, ps, None, seq![], to);
    assert(c[m - 1] == body[m - 1]);
    let close = closing(to);
    assert forall|k: int| 0 <= k < close.len() implies c[m + k] == #[trigger] close[k] by {
        assert(a[m + k] == close[k]);
    }
    let none = Seq::<BlockKind>::empty();
    if to.len() == 0 {
        assert(close[0] == 0x3b);
        assert(c[m + 0] == close[0]);
        assert(to =~= none);
    } else {
        assert(close[3] == 0x3b);
        assert(c[m + 3] == close[3]);
        assert forall|k: int| 0 <= k < ascii("END"@).len() implies c[m + k]
            == #[trigger] ascii("END"@)[k] by {
            assert(close[k] == "END;"@[k] as u8);
            assert("END"@[k] == "END;"@[k]);
            assert(c[m + k] == close[k]);
        }
        lemma_bare_end(c, end, m, 0, Some(0int), to);
        assert(to.drop_last() =~= none);
    }
    assert(c[n - 1] == 0x3b);
    assert(statements_from(c, end, n - 1, Some(0int), none) == seq![(0int, n)] + statements_from(
        c,
        end,
        n,
        None,
        none,
    ));
    assert(goes_on(c, n, b)) by {
        assert forall|k: int| 0 <= k < b.len() implies c[n + k] == #[trigger] b[k] by {}
    }
    lemma_trimmed_behind(s, t);
    lemma_statements_moved(c, n, b, byte_len(trimmed_end(t)), 0, None, none);
}

/// A text that ends in a byte other than white space keeps it when trimmed, with
/// what follows it.
proof fn lemma_trimmed_behind(s: Seq<char>, t: Seq<char>)
    requires
        encode_utf8(s).len() > 0,
        encode_utf8(s).last() == 0x3b,
    ensures
        byte_len(trimmed_end(s + t)) == byte_len(s) + byte_len(trimmed_end(t)),
{
    assert(s.len() > 0);
    lemma_last_ascii(s, ';');
    lemma_trimmed_concat(s, t);
    lemma_encode_concat(s, trimmed_end(t));
}

/// A script of pieces that nothing closes is one statement too, up to its
/// trailing white space.
pub proof fn law_open_pieces_are_one_statement(
    s: Seq<char>,
    ps: Seq<Piece>,
    to: Seq<BlockKind>,
)
    requires
        ps.len() > 0,
        nested(ps, seq![], to),
        !is_space(bytes_of(ps[0])[0]),
        encode_utf8(s) == script_bytes(ps),
        trimmed_end(s).len() > 0,
    ensures
        statements(s) == seq![(0int, byte_len(trimmed_end(s)))],
{
    let c = encode_utf8(s);
    let end = byte_len(trimmed_end(s));
    assert(holds(c, 0, script_bytes(ps)));
    lemma_pieces(c, end, 0, ps, None, seq![], to);
    lemma_prefix_len(trimmed_end(s), 1, trimmed_end(s).len() as int);
    lemma_char_width(trimmed_end(s)[0]);
    assert(trimmed_end(s).take(1) =~= seq![trimmed_end(s)[0]]);
    assert(trimmed_end(s).take(trimmed_end(s).len() as int) =~= trimmed_end(s));
}

/// `BEGIN` that starts a transaction opens no block: it is a statement, and what
/// follows it is split as if it stood alone.
pub proof fn law_transaction_start(s: Seq<char>, t: Seq<char>)
    requires
        s == "BEGIN;"@ || s == "BEGIN WORK;"@ || s == "BEGIN TRANSACTION;"@,
    ensures
        statements(s + t) == seq![(0int, byte_len(s))] + moved(statements(t), byte_len(s)),
{
    reveal_strlit("BEGIN;");
    reveal_strlit("BEGIN WORK;");
    reveal_strlit("BEGIN TRANSACTION;");
    reveal_strlit("BEGIN");
    reveal_strlit("WORK");
    reveal_strlit("TRANSACTION");
    reveal_strlit("CASE");
    reveal_strlit("END");
    lemma_keyword_letters();
    lemma_encode_concat(s, t);
    lemma_ascii_text(s);
    let a = encode_utf8(s);
    let b = encode_utf8(t);
    let c = a + b;
    let n = a.len() as int;
    let end = byte_len(trimmed_end(s + t));
    let none = Seq::<BlockKind>::empty();
    assert forall|k: int| 0 <= k < n implies #[trigger] c[k] == s[k] as u8 by {
        assert(a[k] == s[k] as u8);
    }
    assert(holds(c, 0, ascii("BEGIN"@))) by {
        assert forall|k: int| 0 <= k < ascii("BEGIN"@).len() implies c[0 + k]
            == #[trigger] ascii("BEGIN"@)[k] by {
            assert("BEGIN"@[k] == s[k]);
        }
    }
    assert(c[5] == s[5] as u8);
    lemma_keyword(c, end, 0, "BEGIN"@, None, none);
    if s == "BEGIN;"@ {
        assert(peek(c, 5) == 5);
        assert(starts_transaction(c, 5));
    } else {
        let word = if s == "BEGIN WORK;"@ {
            "WORK"@
        } else {
            "TRANSACTION"@
        };
        assert(c[6] == s[6] as u8);
        assert(holds(c, 6, ascii(word))) by {
            assert forall|k: int| 0 <= k < ascii(word).len() implies c[6 + k]
                == #[trigger] ascii(word)[k] by {
                assert(word[k] == s[6 + k]);
            }
        }
        assert(c[n - 1] == s[n - 1] as u8);
        lemma_keyword(c, end, 6, word, Some(0int), none);
        assert(peek(c, 6) == 6);
        assert(peek(c, 5) == 6);
        assert(starts_transaction(c, 5));
        lemma_space(c, end, 5, Some(0int), none);
        assert(!spells(ascii(word), "BEGIN"@));
        assert(!spells(ascii(word), "END"@));
        assert(!spells(ascii(word), "CASE"@)) by {
            if spells(ascii(word), "CASE"@) {
                assert(ascii_lower(ascii(word)[0] as char) == ascii_lower("CASE"@[0]));
            }
        }
    }
    assert(c[n - 1] == s[n - 1] as u8);
    assert(a[n - 1] == 0x3b);
    assert(goes_on(c, n, b)) by {
        assert forall|k: int| 0 <= k < b.len() implies c[n + k] == #[trigger] b[k] by {}
    }
    lemma_trimmed_behind(s, t);
    lemma_statements_moved(c, n, b, byte_len(trimmed_end(t)), 0, None, none);
}

/// The bytes with their letters in upper case.
pub open spec fn upper_bytes(b: Seq<u8>) -> Seq<u8> {
    b.map_values(|x: u8| upper_byte(x))
}

proof fn lemma_upper_stops(b: Seq<u8>, i: int)
    requires
        0 <= i,
    ensures
        word_stop(upper_bytes(b), i) == word_stop(b, i),
        newline_at(upper_bytes(b), i) == newline_at(b, i),
        block_end(upper_bytes(b), i) == block_end(b, i),
        peek_past_block(upper_bytes(b), i) == peek_past_block(b, i),
    decreases b.len() - i,
{
    if i < b.len() {
        lemma_upper_stops(b, i + 1);
    }
}

proof fn lemma_upper_quoted(b: Seq<u8>, i: int, q: u8, escapes: bool)
    requires
        0 <= i,
        q == 0x27 || q == 0x22 || q == 0x60,
    ensures
        quoted_end(upper_bytes(b), i, q, escapes) == quoted_end(b, i, q, escapes),
    decreases b.len() + 1 - i,
{
    if i < b.len() {
        lemma_upper_quoted(b, i + 1, q, escapes);
        lemma_upper_quoted(b, i + 2, q, escapes);
    }
}

proof fn lemma_upper_peek(b: Seq<u8>, i: int)
    requires
        0 <= i <= b.len(),
    ensures
        peek(upper_bytes(b), i) == peek(b, i),
    decreases b.len() - i,
{
    if i < b.len() {
        if is_space(b[i]) {
            lemma_upper_peek(b, i + 1);
        } else if b[i] == 0x2d && i + 1 < b.len() && b[i + 1] == 0x2d {
            lemma_upper_stops(b, i + 2);
            lemma_newline_at(b, i + 2);
            lemma_upper_peek(b, newline_at(b, i + 2));
        } else if b[i] == 0x23 {
            lemma_upper_stops(b, i + 1);
            lemma_newline_at(b, i + 1);
            lemma_upper_peek(b, newline_at(b, i + 1));
        } else if b[i] == 0x2f && i + 1 < b.len() && b[i + 1] == 0x2a {
            lemma_upper_stops(b, i + 2);
            lemma_peek_past_block(b, i + 2);
            lemma_upper_peek(b, peek_past_block(b, i + 2));
        }
    }
}

proof fn lemma_upper_spells(w: Seq<u8>, word: Seq<char>)
    ensures
        spells(upper_bytes(w), word) == spells(w, word),
{
    assert forall|k: int| 0 <= k < w.len() implies ascii_lower(
        #[trigger] upper_bytes(w)[k] as char,
    ) == ascii_lower(w[k] as char) by {}
    if spells(upper_bytes(w), word) {
        assert forall|k: int| 0 <= k < w.len() implies ascii_lower(#[trigger] w[k] as char)
            == ascii_lower(word[k]) by {
            assert(ascii_lower(upper_bytes(w)[k] as char) == ascii_lower(word[k]));
        }
    }
}

proof fn lemma_upper_word(b: Seq<u8>, i: int, word: Seq<char>)
    requires
        0 <= i <= b.len(),
    ensures
        spells(word_at(upper_bytes(b), i), word) == spells(word_at(b, i), word),
{
    lemma_upper_stops(b, i);
    lemma_word_stop(b, i);
    assert(word_at(upper_bytes(b), i) =~= upper_bytes(word_at(b, i)));
    lemma_upper_spells(word_at(b, i), word);
}

proof fn lemma_upper_blocks(b: Seq<u8>, i: int, after: int, stack: Seq<BlockKind>)
    requires
        0 <= i <= after <= b.len(),
    ensures
        blocks_after(upper_bytes(b), after, word_at(upper_bytes(b), i), stack) == blocks_after(
            b,
            after,
            word_at(b, i),
            stack,
        ),
{
    lemma_upper_peek(b, after);
    lemma_peek(b, after);
    let next = peek(b, after);
    lemma_upper_word(b, i, "BEGIN"@);
    lemma_upper_word(b, i, "CASE"@);
    lemma_upper_word(b, i, "END"@);
    lemma_upper_word(b, next, "WORK"@);
    lemma_upper_word(b, next, "TRANSACTION"@);
    lemma_upper_word(b, next, "IF"@);
    lemma_upper_word(b, next, "LOOP"@);
    lemma_upper_word(b, next, "WHILE"@);
    lemma_upper_word(b, next, "REPEAT"@);
    lemma_upper_word(b, next, "CASE"@);
}

proof fn lemma_upper_statements(
    b: Seq<u8>,
    end: int,
    i: int,
    open: Option<int>,
    stack: Seq<BlockKind>,
)
    requires
        0 <= i <= b.len(),
    ensures
        statements_from(upper_bytes(b), end, i, open, stack) == statements_from(
            b,
            end,
            i,
            open,
            stack,
        ),
    decreases b.len() - i,
{
    let u = upper_bytes(b);
    if i < b.len() {
        lemma_token_end(b, i);
        lemma_token_end(u, i);
        lemma_upper_stops(b, i);
        lemma_upper_stops(b, i + 1);
        lemma_upper_stops(b, i + 2);
        lemma_upper_quoted(b, i + 1, 0x27, true);
        lemma_upper_quoted(b, i + 1, 0x22, true);
        lemma_upper_quoted(b, i + 1, 0x60, false);
        assert(is_word_at(u, i) == is_word_at(b, i));
        assert(token_end(u, i) == token_end(b, i));
        let start = opened(open, i);
        if is_space(b[i]) {
            lemma_upper_statements(b, end, i + 1, open, stack);
        } else if b[i] == 0x3b && !stack.contains(BlockKind::Begin) {
            lemma_upper_statements(b, end, i + 1, None, stack);
        } else if is_word_at(b, i) {
            let next = word_stop(b, i);
            lemma_upper_blocks(b, i, next, stack);
            lemma_upper_statements(
                b,
                end,
                next,
                Some(start),
                blocks_after(b, next, word_at(b, i), stack),
            );
        } else {
            lemma_upper_statements(b, end, token_end(b, i), Some(start), stack);
        }
    }
}

proof fn lemma_upper_char(c: char)
    ensures
        encode_utf8(seq![ascii_upper(c)]) == upper_bytes(encode_utf8(seq![c])),
{
    if (c as u32) < 0x80 {
        lemma_ascii_char(c);
        lemma_ascii_char(ascii_upper(c));
        assert(seq![ascii_upper(c) as u8] =~= upper_bytes(seq![c as u8]));
    } else {
        lemma_wide_char(c);
        assert(upper_bytes(encode_utf8(seq![c])) =~= encode_utf8(seq![c]));
    }
}

proof fn lemma_upper_encoding(s: Seq<char>)
    ensures
        encode_utf8(uppered(s)) == upper_bytes(encode_utf8(s)),
    decreases s.len(),
{
    if s.len() == 0 {
        assert(encode_utf8(uppered(s)) =~= upper_bytes(encode_utf8(s)));
    } else {
        let front = s.drop_last();
        let last = s.last();
        lemma_upper_encoding(front);
        lemma_upper_char(last);
        assert(s =~= front + seq![last]);
        assert(uppered(s) =~= uppered(front) + seq![ascii_upper(last)]);
        lemma_encode_concat(front, seq![last]);
        lemma_encode_concat(uppered(front), seq![ascii_upper(last)]);
        assert(upper_bytes(encode_utf8(s)) =~= upper_bytes(encode_utf8(front)) + upper_bytes(
            encode_utf8(seq![last]),
        ));
    }
}

/// Keywords are recognised in any case: a script in upper case is split at the
/// same places.
pub proof fn law_case_is_ignored(s: Seq<char>)
    ensures
        statements(uppered(s)) == statements(s),
{
    lemma_upper_encoding(s);
    lemma_trimmed_end_uppered(s);
    lemma_upper_encoding(trimmed_end(s));
    lemma_upper_statements(encode_utf8(s), byte_len(trimmed_end(s)), 0, None, seq![]);
}

/// What may stand between two words.
pub enum Gap {
    /// One white-space byte.
    White(u8),
    /// A comment up to the end of the line, after `#` or else after `--`.
    Line(bool, Seq<u8>),
    /// A comment between `/*` and `*/`.
    Comment(Seq<u8>),
}

/// The bytes of a gap.
pub open spec fn gap_bytes(g: Gap) -> Seq<u8> {
    match g {
        Gap::White(b) => seq![b],
        Gap::Line(hash, s) => (if hash {
            ascii("#"@)
        } else {
            ascii("--"@)
        }) + s + ascii("\n"@),
        Gap::Comment(s) => ascii("/*"@) + s + ascii("*/"@),
    }
}

/// What may stand in a gap: no line feed in a comment that ends with the line,
/// and no `*/` in one that ends with that.
pub open spec fn is_gap(g: Gap) -> bool {
    match g {
        Gap::White(b) => b == 0x20 || b == 0x09 || b == 0x0a || b == 0x0c || b == 0x0d,
        Gap::Line(_, s) => forall|i: int| 0 <= i < s.len() ==> #[trigger] s[i] != 0x0a,
        Gap::Comment(s) => forall|i: int|
            0 <= i < s.len() - 1 ==> !((#[trigger] s[i]) == 0x2a && s[i + 1] == 0x2f),
    }
}

/// The bytes of several gaps.
pub open spec fn gaps_bytes(gs: Seq<Gap>) -> Seq<u8>
    decreases gs.len(),
{
    if gs.len() == 0 {
        seq![]
    } else {
        gap_bytes(gs[0]) + gaps_bytes(gs.drop_first())
    }
}

/// `p` stands in `c` at `i`.
pub open spec fn stands_at(c: Seq<u8>, i: int, p: Seq<u8>) -> bool {
    &&& 0 <= i
    &&& i + p.len() <= c.len()
    &&& c.subrange(i, i + p.len()) == p
}

proof fn lemma_block_found(c: Seq<u8>, i: int, j: int)
    requires
        0 <= i <= j,
        j + 1 < c.len(),
        forall|k: int| i <= k < j ==> !((#[trigger] c[k]) == 0x2a && c[k + 1] == 0x2f),
        c[j] == 0x2a && c[j + 1] == 0x2f,
    ensures
        peek_past_block(c, i) == j + 2,
    decreases j - i,
{
    if i < j {
        lemma_block_found(c, i + 1, j);
    }
}

proof fn lemma_peek_gap(c: Seq<u8>, i: int, g: Gap)
    requires
        is_gap(g),
        stands_at(c, i, gap_bytes(g)),
    ensures
        peek(c, i) == peek(c, i + gap_bytes(g).len()),
{
    reveal_strlit("#");
    reveal_strlit("--");
    reveal_strlit("\n");
    reveal_strlit("/*");
    reveal_strlit("*/");
    let p = gap_bytes(g);
    assert forall|k: int| 0 <= k < p.len() implies c[i + k] == #[trigger] p[k] by {
        assert(c.subrange(i, i + p.len())[k] == p[k]);
    }
    match g {
        Gap::White(b) => {
            assert(c[i + 0] == p[0]);
        },
        Gap::Line(hash, s) => {
            let n: int = if hash {
                1
            } else {
                2
            };
            assert(p.len() == n + s.len() + 1);
            assert(c[i + 0] == p[0]);
            if !hash {
                assert(c[i + 1] == p[1]);
            }
            let j = i + n + s.len();
            assert(p[n + s.len()] == 0x0a);
            assert(c[i + (n + s.len())] == p[n + s.len()]);
            assert forall|k: int| i + n <= k < j implies #[trigger] c[k] != 0x0a by {
                assert(p[k - i] == s[k - i - n]);
                assert(c[i + (k - i)] == p[k - i]);
            }
            lemma_line(c, i + n, j);
            lemma_newline_at(c, i + n);
            assert(peek(c, i) == peek(c, j));
            assert(peek(c, j) == peek(c, j + 1));
        },
        Gap::Comment(s) => {
            assert(p.len() == s.len() + 4);
            assert(c[i + 0] == p[0]);
            assert(c[i + 1] == p[1]);
            let j = i + 2 + s.len();
            assert(p[s.len() + 2int] == 0x2a && p[s.len() + 3int] == 0x2f);
            assert(c[i + (s.len() + 2)] == p[s.len() + 2int]);
            assert(c[i + (s.len() + 3)] == p[s.len() + 3int]);
            assert forall|k: int| i + 2 <= k < j implies !((#[trigger] c[k]) == 0x2a && c[k + 1]
                == 0x2f) by {
                assert(p[k - i] == s[k - i - 2]);
                assert(c[i + (k - i)] == p[k - i]);
                assert(c[i + (k + 1 - i)] == p[k + 1 - i]);
                if k + 1 < j {
                    assert(p[k + 1 - i] == s[k - i - 1]);
                }
            }
            lemma_block_found(c, i + 2, j);
            lemma_peek_past_block(c, i + 2);
        },
    }
}

proof fn lemma_peek_gaps(c: Seq<u8>, i: int, gs: Seq<Gap>)
    requires
        forall|k: int| 0 <= k < gs.len() ==> is_gap(#[trigger] gs[k]),
        stands_at(c, i, gaps_bytes(gs)),
    ensures
        peek(c, i) == peek(c, i + gaps_bytes(gs).len()),
    decreases gs.len(),
{
    if gs.len() > 0 {
        let first = gap_bytes(gs[0]);
        let rest = gs.drop_first();
        let more = gaps_bytes(rest);
        assert(gaps_bytes(gs) == first + more);
        let whole = c.subrange(i, i + gaps_bytes(gs).len());
        assert(c.subrange(i, i + first.len()) =~= whole.subrange(0, first.len() as int));
        assert((first + more).subrange(0, first.len() as int) =~= first);
        assert(c.subrange(i + first.len(), i + first.len() + more.len()) =~= whole.subrange(
            first.len() as int,
            whole.len() as int,
        ));
        assert((first + more).subrange(first.len() as int, (first + more).len() as int) =~= more);
        lemma_peek_gap(c, i, gs[0]);
        lemma_peek_gaps(c, i + first.len(), rest);
    }
}

/// What a keyword opens or closes is told by the word after it, whatever white
/// space and comments stand between them: `END` before `IF`, `LOOP`, `WHILE` or
/// `REPEAT` closes nothing here, before any other word but `CASE` it closes the
/// innermost block, and `BEGIN` opens one unless `WORK` or `TRANSACTION` follows.
pub proof fn law_next_word_tells(
    c: Seq<u8>,
    after: int,
    gs: Seq<Gap>,
    stack: Seq<BlockKind>,
)
    requires
        forall|k: int| 0 <= k < gs.len() ==> is_gap(#[trigger] gs[k]),
        stands_at(c, after, gaps_bytes(gs)),
        after + gaps_bytes(gs).len() < c.len(),
        ({
            let first = c[after + gaps_bytes(gs).len()];
            0x41 <= first <= 0x5a || 0x61 <= first <= 0x7a || first == 0x5f
        }),
        stack.len() > 0,
    ensures
        ({
            let next = word_at(c, after + gaps_bytes(gs).len());
            let ended = blocks_after(c, after, ascii("END"@), stack);
            let begun = blocks_after(c, after, ascii("BEGIN"@), stack);
            &&& spells(next, "IF"@) || spells(next, "LOOP"@) || spells(next, "WHILE"@) || spells(
                next,
                "REPEAT"@,
            ) ==> ended == stack
            &&& !spells(next, "IF"@) && !spells(next, "LOOP"@) && !spells(next, "WHILE"@)
                && !spells(next, "REPEAT"@) && !spells(next, "CASE"@) ==> ended
                == stack.drop_last()
            &&& spells(next, "WORK"@) || spells(next, "TRANSACTION"@) ==> begun == stack
            &&& !spells(next, "WORK"@) && !spells(next, "TRANSACTION"@) ==> begun == stack.push(
                BlockKind::Begin,
            )
        }),
{
    reveal_strlit("END");
    reveal_strlit("BEGIN");
    reveal_strlit("CASE");
    lemma_peek_gaps(c, after, gs);
    let p = after + gaps_bytes(gs).len();
    assert(peek(c, p) == p);
    let end = ascii("END"@);
    let begin = ascii("BEGIN"@);
    assert(spells(begin, "BEGIN"@));
    assert(end.len() == 3);
    assert(end[0] == 0x45 && end[1] == 0x4e && end[2] == 0x44);
    assert(spells(end, "END"@));
    assert(!spells(end, "BEGIN"@));
    assert(!spells(end, "CASE"@));
}

/// Closing the innermost `CASE` leaves the blocks inside and around it.
pub proof fn law_innermost_case_is_closed(a: Seq<BlockKind>, b: Seq<BlockKind>)
    requires
        forall|k: int| 0 <= k < b.len() ==> #[trigger] b[k] != BlockKind::Case,
    ensures
        without_last_case(a + seq![BlockKind::Case] + b) == a + b,
        without_last_case(b) == b,
    decreases b.len(),
{
    let s = a + seq![BlockKind::Case] + b;
    if b.len() == 0 {
        assert(s.last() == BlockKind::Case);
        assert(s.drop_last() =~= a + b);
    } else {
        let c = b.drop_last();
        assert forall|k: int| 0 <= k < c.len() implies #[trigger] c[k] != BlockKind::Case by {
            assert(c[k] == b[k]);
        }
        law_innermost_case_is_closed(a, c);
        assert(s.last() == b[b.len() - 1]);
        assert(s.drop_last() =~= a + seq![BlockKind::Case] + c);
        assert((a + c).push(b.last()) =~= a + b);
        assert(c.push(b.last()) =~= b);
    }
}

} // verus!
