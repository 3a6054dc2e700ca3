//! Split a SQL script into individual statements while respecting strings,
//! identifiers, comments and `BEGIN ... END` / `CASE ... END` compound
//! blocks. Statements are byte ranges into the script.
//!
//! Any `;` inside a compound `BEGIN ... END` is part of that compound
//! statement, not a statement separator, so scripts with stored routines
//! need no client-side `DELIMITER` directive.

use std::ops::Range;

use vstd::prelude::*;
use vstd::string::StringSliceAdditionalSpecFns;
use vstd::utf8::{encode_utf8, is_char_boundary, valid_utf8};

use crate::text::{ascii_lower, lower_char, to_chars, trailing_end, trimmed_end};
use crate::utf8::{
    byte_len, char_width, lemma_boundary_after_ascii, lemma_encode_concat, lemma_prefix_boundary,
    lemma_prefix_len,
};

verus! {

/// Compound blocks that are balanced against `END`. Only `Begin` suppresses
/// `;` as a statement boundary; `Case` is kept so that an `END` matches the
/// right opener.
#[derive(Debug, Clone, Copy, PartialEq, Eq, Structural)]
pub enum BlockKind {
    Begin,
    Case,
}

/// ASCII white space: space, tab, newline, form feed, carriage return.
pub open spec fn is_space(b: u8) -> bool {
    b == 0x20 || b == 0x09 || b == 0x0a || b == 0x0c || b == 0x0d
}

/// A letter, a digit or an underscore.
pub open spec fn word_byte(b: u8) -> bool {
    word_first_byte(b) || 0x30 <= b <= 0x39
}

/// A letter or an underscore.
pub open spec fn word_first_byte(b: u8) -> bool {
    0x41 <= b <= 0x5a || 0x61 <= b <= 0x7a || b == 0x5f
}

/// A word may start at `i`: the byte before it is no word byte and none of
/// `@`, `$` and `.`, which prefix variables and qualified names.
pub open spec fn word_start(b: Seq<u8>, i: int) -> bool {
    i == 0 || !(word_byte(b[i - 1]) || b[i - 1] == 0x40 || b[i - 1] == 0x24 || b[i - 1] == 0x2e)
}

/// End of the run of word bytes that starts at `i`.
pub open spec fn word_stop(b: Seq<u8>, i: int) -> int
    decreases b.len() - i,
{
    if 0 <= i < b.len() && word_byte(b[i]) {
        word_stop(b, i + 1)
    } else {
        i
    }
}

/// `word` is the ASCII text `keyword`, in any mixture of cases.
pub open spec fn spells(word: Seq<u8>, keyword: Seq<char>) -> bool {
    &&& word.len() == keyword.len()
    &&& forall|k: int|
        0 <= k < word.len() ==> ascii_lower(#[trigger] word[k] as char) == ascii_lower(keyword[k])
}

/// First newline at or after `i`, or the end.
pub open spec fn newline_at(b: Seq<u8>, i: int) -> int
    decreases b.len() - i,
{
    if 0 <= i < b.len() && b[i] != 0x0a {
        newline_at(b, i + 1)
    } else {
        i
    }
}

/// End of a line comment whose body starts at `i`: past its newline.
pub open spec fn line_end(b: Seq<u8>, i: int) -> int {
    if newline_at(b, i) < b.len() {
        newline_at(b, i) + 1
    } else {
        newline_at(b, i)
    }
}

/// End of a block comment whose body starts at `i`: past its `*/`, or the
/// end of the script when it is not closed.
pub open spec fn block_end(b: Seq<u8>, i: int) -> int
    decreases b.len() - i,
{
    if i < 0 || i >= b.len() {
        b.len() as int
    } else if b[i] == 0x2a && i + 1 < b.len() && b[i + 1] == 0x2f {
        i + 2
    } else {
        block_end(b, i + 1)
    }
}

/// End of a quoted token whose body starts at `i`: past the closing quote,
/// or the end of the script. A doubled quote does not close the token, nor
/// does a quote after a backslash where `escapes` holds.
pub open spec fn quoted_end(b: Seq<u8>, i: int, quote: u8, escapes: bool) -> int
    decreases b.len() + 1 - i,
{
    if i < 0 || i >= b.len() {
        b.len() as int
    } else if escapes && b[i] == 0x5c {
        quoted_end(b, i + 2, quote, escapes)
    } else if b[i] == quote {
        if i + 1 < b.len() && b[i + 1] == quote {
            quoted_end(b, i + 2, quote, escapes)
        } else {
            i + 1
        }
    } else {
        quoted_end(b, i + 1, quote, escapes)
    }
}

/// A word token starts at `i`.
pub open spec fn is_word_at(b: Seq<u8>, i: int) -> bool {
    word_first_byte(b[i]) && word_start(b, i)
}

/// End of the token that starts at `i`: a quoted string or identifier, a
/// comment, a word, or a single byte.
pub open spec fn token_end(b: Seq<u8>, i: int) -> int {
    if b[i] == 0x27 {
        quoted_end(b, i + 1, 0x27, true)
    } else if b[i] == 0x22 {
        quoted_end(b, i + 1, 0x22, true)
    } else if b[i] == 0x60 {
        quoted_end(b, i + 1, 0x60, false)
    } else if b[i] == 0x23 {
        line_end(b, i + 1)
    } else if b[i] == 0x2d && i + 1 < b.len() && b[i + 1] == 0x2d {
        line_end(b, i + 2)
    } else if b[i] == 0x2f && i + 1 < b.len() && b[i + 1] == 0x2a {
        block_end(b, i + 2)
    } else if is_word_at(b, i) {
        word_stop(b, i)
    } else {
        i + 1
    }
}

/// Where the look-ahead goes on after a `/*` whose body starts at `i`: past
/// the `*/`, or at the last byte when there is none.
pub open spec fn peek_past_block(b: Seq<u8>, i: int) -> int
    decreases b.len() - i,
{
    if 0 <= i && i + 1 < b.len() {
        if b[i] == 0x2a && b[i + 1] == 0x2f {
            i + 2
        } else {
            peek_past_block(b, i + 1)
        }
    } else {
        i
    }
}

/// First position at or after `i` that is neither white space nor inside a
/// comment.
pub open spec fn peek(b: Seq<u8>, i: int) -> int
    decreases b.len() - i,
{
    if i < 0 || i >= b.len() {
        i
    } else if is_space(b[i]) {
        peek(b, i + 1)
    } else if b[i] == 0x2d && i + 1 < b.len() && b[i + 1] == 0x2d {
        proof {
            lemma_newline_at(b, i + 2);
        }
        peek(b, newline_at(b, i + 2))
    } else if b[i] == 0x23 {
        proof {
            lemma_newline_at(b, i + 1);
        }
        peek(b, newline_at(b, i + 1))
    } else if b[i] == 0x2f && i + 1 < b.len() && b[i + 1] == 0x2a {
        proof {
            lemma_peek_past_block(b, i + 2);
        }
        peek(b, peek_past_block(b, i + 2))
    } else {
        i
    }
}

/// The word that starts at `i`; empty when none does.
pub open spec fn word_at(b: Seq<u8>, i: int) -> Seq<u8> {
    b.subrange(i, word_stop(b, i))
}

/// `BEGIN` is a transaction start, not a compound block: `BEGIN;`,
/// `BEGIN WORK` and `BEGIN TRANSACTION`. `after` is the end of `BEGIN`.
pub open spec fn starts_transaction(b: Seq<u8>, after: int) -> bool {
    let next = peek(b, after);
    next < b.len() && (b[next] == 0x3b || spells(word_at(b, next), "WORK"@) || spells(
        word_at(b, next),
        "TRANSACTION"@,
    ))
}

/// `stack` without its topmost `Case`.
pub open spec fn without_last_case(stack: Seq<BlockKind>) -> Seq<BlockKind>
    decreases stack.len(),
{
    if stack.len() == 0 {
        stack
    } else if stack.last() == BlockKind::Case {
        stack.drop_last()
    } else {
        without_last_case(stack.drop_last()).push(stack.last())
    }
}

/// The open blocks after the keyword `word`, which ends at `after`.
pub open spec fn blocks_after(
    b: Seq<u8>,
    after: int,
    word: Seq<u8>,
    stack: Seq<BlockKind>,
) -> Seq<BlockKind> {
    if spells(word, "BEGIN"@) {
        if starts_transaction(b, after) {
            stack
        } else {
            stack.push(BlockKind::Begin)
        }
    } else if spells(word, "CASE"@) {
        stack.push(BlockKind::Case)
    } else if spells(word, "END"@) {
        let next = word_at(b, peek(b, after));
        if spells(next, "IF"@) || spells(next, "LOOP"@) || spells(next, "WHILE"@) || spells(
            next,
            "REPEAT"@,
        ) {
            stack
        } else if spells(next, "CASE"@) {
            without_last_case(stack)
        } else if stack.len() > 0 {
            stack.drop_last()
        } else {
            stack
        }
    } else {
        stack
    }
}

/// The statements of `b` from position `i` on, as byte ranges. `open` is the
/// start of the statement that `i` is in, `stack` the open blocks, and
/// `end` where the text ends once trailing white space is cut off. A `;` with
/// no statement before it is left out.
pub open spec fn statements_from(
    b: Seq<u8>,
    end: int,
    i: int,
    open: Option<int>,
    stack: Seq<BlockKind>,
) -> Seq<(int, int)>
    decreases b.len() - i,
{
    if i < 0 || i >= b.len() {
        match open {
            Some(start) => if end > start {
                seq![(start, end)]
            } else {
                seq![]
            },
            None => seq![],
        }
    } else if is_space(b[i]) {
        statements_from(b, end, i + 1, open, stack)
    } else {
        proof {
            lemma_token_end(b, i);
        }
        let start = match open {
            Some(start) => start,
            None => i,
        };
        if b[i] == 0x3b && !stack.contains(BlockKind::Begin) {
            let rest = statements_from(b, end, i + 1, None, stack);
            match open {
                Some(start) => seq![(start, i + 1)] + rest,
                None => rest,
            }
        } else if is_word_at(b, i) {
            statements_from(
                b,
                end,
                word_stop(b, i),
                Some(start),
                blocks_after(b, word_stop(b, i), word_at(b, i), stack),
            )
        } else {
            statements_from(b, end, token_end(b, i), Some(start), stack)
        }
    }
}

/// The statements of the script `s`, as byte ranges of its encoding.
pub open spec fn statements(s: Seq<char>) -> Seq<(int, int)> {
    statements_from(encode_utf8(s), byte_len(trimmed_end(s)), 0, None, seq![])
}

/// The start and end of each range.
pub open spec fn spans(v: Seq<Range<usize>>) -> Seq<(int, int)> {
    v.map_values(|r: Range<usize>| (r.start as int, r.end as int))
}

/// `newline_at` does not move back.
pub proof fn lemma_newline_at(b: Seq<u8>, i: int)
    requires
        0 <= i,
    ensures
        newline_at(b, i) >= i,
        i <= b.len() ==> newline_at(b, i) <= b.len(),
    decreases b.len() - i,
{
    if i < b.len() && b[i] != 0x0a {
        lemma_newline_at(b, i + 1);
    }
}

/// `peek_past_block` does not move back.
pub proof fn lemma_peek_past_block(b: Seq<u8>, i: int)
    requires
        0 <= i,
    ensures
        peek_past_block(b, i) >= i,
        i <= b.len() ==> peek_past_block(b, i) <= b.len(),
    decreases b.len() - i,
{
    if i + 1 < b.len() {
        lemma_peek_past_block(b, i + 1);
    }
}

/// A word ends within the script.
pub proof fn lemma_word_stop(b: Seq<u8>, i: int)
    requires
        0 <= i,
    ensures
        word_stop(b, i) >= i,
        i <= b.len() ==> word_stop(b, i) <= b.len(),
        i < b.len() && word_byte(b[i]) ==> word_stop(b, i) > i,
    decreases b.len() - i,
{
    if i < b.len() && word_byte(b[i]) {
        lemma_word_stop(b, i + 1);
    }
}

proof fn lemma_block_end(b: Seq<u8>, i: int)
    requires
        0 <= i <= b.len(),
    ensures
        i <= block_end(b, i) <= b.len(),
    decreases b.len() - i,
{
    if i < b.len() {
        lemma_block_end(b, i + 1);
    }
}

proof fn lemma_quoted_end(b: Seq<u8>, i: int, quote: u8, escapes: bool)
    requires
        0 <= i <= b.len() + 1,
    ensures
        i <= b.len() ==> i <= quoted_end(b, i, quote, escapes),
        quoted_end(b, i, quote, escapes) <= b.len(),
    decreases b.len() + 1 - i,
{
    if i < b.len() {
        lemma_quoted_end(b, i + 1, quote, escapes);
        if i + 1 < b.len() || b[i] == 0x5c {
            lemma_quoted_end(b, i + 2, quote, escapes);
        }
    }
}

/// A token is not empty and ends within the script.
pub proof fn lemma_token_end(b: Seq<u8>, i: int)
    requires
        0 <= i < b.len(),
    ensures
        i < token_end(b, i) <= b.len(),
        is_word_at(b, i) ==> i < word_stop(b, i) <= b.len(),
{
    lemma_quoted_end(b, i + 1, 0x27, true);
    lemma_quoted_end(b, i + 1, 0x22, true);
    lemma_quoted_end(b, i + 1, 0x60, false);
    lemma_newline_at(b, i + 1);
    if i + 1 < b.len() {
        lemma_newline_at(b, i + 2);
        lemma_block_end(b, i + 2);
    }
    lemma_word_stop(b, i);
}

/// The look-ahead stays within the script.
pub proof fn lemma_peek(b: Seq<u8>, i: int)
    requires
        0 <= i <= b.len(),
    ensures
        i <= peek(b, i) <= b.len(),
    decreases b.len() - i,
{
    if i < b.len() {
        if is_space(b[i]) {
            lemma_peek(b, i + 1);
        } else if b[i] == 0x2d && i + 1 < b.len() && b[i + 1] == 0x2d {
            lemma_newline_at(b, i + 2);
            lemma_peek(b, newline_at(b, i + 2));
        } else if b[i] == 0x23 {
            lemma_newline_at(b, i + 1);
            lemma_peek(b, newline_at(b, i + 1));
        } else if b[i] == 0x2f && i + 1 < b.len() && b[i + 1] == 0x2a {
            lemma_peek_past_block(b, i + 2);
            lemma_peek(b, peek_past_block(b, i + 2));
        }
    }
}

/// Whether `b` is ASCII white space.
pub fn is_ascii_space(b: u8) -> (res: bool)
    ensures
        res == is_space(b),
{
    b == 0x20 || b == 0x09 || b == 0x0a || b == 0x0c || b == 0x0d
}

/// Whether `b` can stand in a word.
pub fn is_word_byte(b: u8) -> (res: bool)
    ensures
        res == word_byte(b),
{
    is_word_first_byte(b) || (0x30 <= b && b <= 0x39)
}

/// Whether `b` can start a word.
pub fn is_word_first_byte(b: u8) -> (res: bool)
    ensures
        res == word_first_byte(b),
{
    (0x41 <= b && b <= 0x5a) || (0x61 <= b && b <= 0x7a) || b == 0x5f
}

/// True iff `i` is not preceded by a word byte or an identifier-prefix
/// character (`@` for user variables, `$`, `.` for qualified names).
/// Without this guard `@while` or `tbl.end` would trigger keyword handling.
pub fn is_word_start(bytes: &[u8], i: usize) -> (res: bool)
    requires
        i <= bytes@.len(),
    ensures
        res == word_start(bytes@, i as int),
{
    if i == 0 {
        return true;
    }
    let prev: u8 = bytes[i - 1];
    !(is_word_byte(prev) || prev == 0x40 || prev == 0x24 || prev == 0x2e)
}

/// End of the run of word bytes that starts at `start`.
pub fn word_end(bytes: &[u8], start: usize) -> (end: usize)
    ensures
        end == word_stop(bytes@, start as int),
        start <= end,
        start <= bytes@.len() ==> end <= bytes@.len(),
{
    let mut end: usize = start;
    while end < bytes.len() && is_word_byte(bytes[end])
        invariant
            start <= end,
            start <= bytes@.len() ==> end <= bytes@.len(),
            word_stop(bytes@, start as int) == word_stop(bytes@, end as int),
        ensures
            start <= end,
            start <= bytes@.len() ==> end <= bytes@.len(),
            end < bytes@.len() ==> !word_byte(bytes@[end as int]),
        decreases bytes@.len() - end,
    {
        end = end + 1;
    }
    end
}

/// Whether `word` is `keyword`, ignoring ASCII case.
pub fn is_keyword(word: &[u8], keyword: &str) -> (res: bool)
    ensures
        res == spells(word@, keyword@),
{
    if word.len() != keyword.unicode_len() {
        return false;
    }
    let mut k: usize = 0;
    for c in it: keyword.chars()
        invariant
            it.seq() == keyword@,
            word@.len() == keyword@.len(),
            k == it.index(),
            forall|m: int|
                0 <= m < k ==> ascii_lower(#[trigger] word@[m] as char) == ascii_lower(keyword@[m]),
    {
        if lower_char(word[k] as char) != lower_char(c) {
            assert(ascii_lower(word@[k as int] as char) != ascii_lower(keyword@[k as int]));
            return false;
        }
        k = k + 1;
    }
    true
}

/// First newline at or after `start`, or the end.
fn find_newline(bytes: &[u8], start: usize) -> (end: usize)
    requires
        start <= bytes@.len(),
    ensures
        end == newline_at(bytes@, start as int),
        start <= end <= bytes@.len(),
{
    let mut end: usize = start;
    while end < bytes.len() && bytes[end] != 0x0a
        invariant
            start <= end <= bytes@.len(),
            newline_at(bytes@, start as int) == newline_at(bytes@, end as int),
        ensures
            start <= end <= bytes@.len(),
            end < bytes@.len() ==> bytes@[end as int] == 0x0a,
        decreases bytes@.len() - end,
    {
        end = end + 1;
    }
    end
}

/// First position at or after `start` that is neither white space nor inside
/// a comment. A `start` past the end is returned as it is.
pub fn skip_ws_and_comments(bytes: &[u8], start: usize) -> (res: usize)
    ensures
        res == peek(bytes@, start as int),
        start <= res,
        start <= bytes@.len() ==> res <= bytes@.len(),
{
    let size: usize = bytes.len();
    let mut i: usize = start;
    while i < size
        invariant
            size == bytes@.len(),
            start <= i,
            start <= bytes@.len() ==> i <= bytes@.len(),
            peek(bytes@, start as int) == peek(bytes@, i as int),
        decreases bytes@.len() - i,
    {
        if is_ascii_space(bytes[i]) {
            i = i + 1;
        } else if bytes[i] == 0x2d && size - i > 1 && bytes[i + 1] == 0x2d {
            i = find_newline(bytes, i + 2);
        } else if bytes[i] == 0x23 {
            i = find_newline(bytes, i + 1);
        } else if bytes[i] == 0x2f && size - i > 1 && bytes[i + 1] == 0x2a {
            let mut j: usize = i + 2;
            while size - j > 1 && !(bytes[j] == 0x2a && bytes[j + 1] == 0x2f)
                invariant
                    size == bytes@.len(),
                    i + 2 <= j <= size,
                    peek_past_block(bytes@, i + 2) == peek_past_block(bytes@, j as int),
                ensures
                    i + 2 <= j <= size,
                    peek_past_block(bytes@, i + 2) == (if j + 1 < size {
                        j + 2
                    } else {
                        j as int
                    }),
                decreases size - j,
            {
                j = j + 1;
            }
            if size - j > 1 {
                j = j + 2;
            }
            i = j;
        } else {
            return i;
        }
    }
    i
}

/// Remove the topmost `Case`, if any.
fn remove_last_case(block_stack: &mut Vec<BlockKind>)
    ensures
        final(block_stack)@ == without_last_case(old(block_stack)@),
{
    let ghost stack = block_stack@;
    let mut k: usize = block_stack.len();
    assert(stack.take(k as int) == stack);
    assert(without_last_case(stack) + stack.skip(k as int) == without_last_case(stack));
    while k > 0
        invariant
            block_stack@ == stack,
            stack == old(block_stack)@,
            k <= stack.len(),
            without_last_case(stack) == without_last_case(stack.take(k as int)) + stack.skip(
                k as int,
            ),
        decreases k,
    {
        proof {
            assert(stack.take(k as int).drop_last() == stack.take(k - 1));
            assert(stack.take(k as int).last() == stack[k - 1]);
        }
        if block_stack[k - 1] == BlockKind::Case {
            block_stack.remove(k - 1);
            assert(stack.remove(k - 1) == stack.take(k - 1) + stack.skip(k as int));
            return;
        }
        assert(without_last_case(stack.take(k as int)) + stack.skip(k as int)
            == without_last_case(stack.take(k - 1)) + stack.skip(k - 1));
        k = k - 1;
    }
    assert(stack.take(0) + stack.skip(0) == stack);
}

/// Update `block_stack` for the keyword `word`, peeking ahead from `after`
/// (the byte just past `word`) for the disambiguating token when needed.
pub fn handle_keyword(bytes: &[u8], after: usize, word: &[u8], block_stack: &mut Vec<BlockKind>)
    requires
        spells(word@, "END"@) ==> after <= bytes@.len(),
    ensures
        final(block_stack)@ == blocks_after(bytes@, after as int, word@, old(block_stack)@),
{
    if is_keyword(word, "BEGIN") {
        let next = skip_ws_and_comments(bytes, after);
        let transactional = if next >= bytes.len() {
            false
        } else if bytes[next] == 0x3b {
            true
        } else {
            let stop = word_end(bytes, next);
            let follower = vstd::slice::slice_subrange(bytes, next, stop);
            is_keyword(follower, "WORK") || is_keyword(follower, "TRANSACTION")
        };
        if !transactional {
            block_stack.push(BlockKind::Begin);
        }
        return;
    }
    if is_keyword(word, "CASE") {
        block_stack.push(BlockKind::Case);
        return;
    }
    if is_keyword(word, "END") {
        let next = skip_ws_and_comments(bytes, after);
        let stop = word_end(bytes, next);
        let follower = vstd::slice::slice_subrange(bytes, next, stop);
        if is_keyword(follower, "IF") || is_keyword(follower, "LOOP") || is_keyword(
            follower,
            "WHILE",
        ) || is_keyword(follower, "REPEAT") {
            // Closes an inner control-flow block, not a BEGIN or a CASE.
            return;
        }
        if is_keyword(follower, "CASE") {
            remove_last_case(block_stack);
            return;
        }
        let _ = block_stack.pop();
    }
}

/// End of a quoted token whose body starts at `start`.
fn skip_quoted(bytes: &[u8], start: usize, quote: u8, escapes: bool) -> (end: usize)
    requires
        start <= bytes@.len(),
    ensures
        end == quoted_end(bytes@, start as int, quote, escapes),
        end <= bytes@.len(),
{
    let size: usize = bytes.len();
    let mut i: usize = start;
    while i < size
        invariant
            size == bytes@.len(),
            start <= i,
            i <= size,
            quoted_end(bytes@, start as int, quote, escapes) == quoted_end(
                bytes@,
                i as int,
                quote,
                escapes,
            ),
        decreases size - i,
    {
        if escapes && bytes[i] == 0x5c {
            if size - i == 1 {
                assert(quoted_end(bytes@, i + 2, quote, escapes) == size);
                return size;
            }
            i = i + 2;
        } else if bytes[i] == quote {
            if size - i > 1 && bytes[i + 1] == quote {
                i = i + 2;
            } else {
                return i + 1;
            }
        } else {
            i = i + 1;
        }
    }
    size
}

/// End of a block comment whose body starts at `start`.
fn skip_block(bytes: &[u8], start: usize) -> (end: usize)
    requires
        start <= bytes@.len(),
    ensures
        end == block_end(bytes@, start as int),
        end <= bytes@.len(),
{
    let size: usize = bytes.len();
    let mut i: usize = start;
    while i < size
        invariant
            size == bytes@.len(),
            start <= i <= size,
            block_end(bytes@, start as int) == block_end(bytes@, i as int),
        decreases size - i,
    {
        if bytes[i] == 0x2a && size - i > 1 && bytes[i + 1] == 0x2f {
            return i + 2;
        }
        i = i + 1;
    }
    size
}

/// End of a line comment whose body starts at `start`.
fn skip_line(bytes: &[u8], start: usize) -> (end: usize)
    requires
        start <= bytes@.len(),
    ensures
        end == line_end(bytes@, start as int),
        end <= bytes@.len(),
{
    let at = find_newline(bytes, start);
    if at < bytes.len() {
        at + 1
    } else {
        at
    }
}

/// End of the token that starts at `i`, where no word does.
fn skip_token(bytes: &[u8], i: usize) -> (end: usize)
    requires
        i < bytes@.len(),
        !is_word_at(bytes@, i as int),
    ensures
        end == token_end(bytes@, i as int),
        i < end <= bytes@.len(),
{
    proof {
        lemma_token_end(bytes@, i as int);
    }
    let size: usize = bytes.len();
    let b: u8 = bytes[i];
    if b == 0x27 {
        skip_quoted(bytes, i + 1, 0x27, true)
    } else if b == 0x22 {
        skip_quoted(bytes, i + 1, 0x22, true)
    } else if b == 0x60 {
        skip_quoted(bytes, i + 1, 0x60, false)
    } else if b == 0x23 {
        skip_line(bytes, i + 1)
    } else if b == 0x2d && size - i > 1 && bytes[i + 1] == 0x2d {
        skip_line(bytes, i + 2)
    } else if b == 0x2f && size - i > 1 && bytes[i + 1] == 0x2a {
        skip_block(bytes, i + 2)
    } else {
        i + 1
    }
}

/// Whether a compound `BEGIN` is open.
fn inside_compound(block_stack: &Vec<BlockKind>) -> (res: bool)
    ensures
        res == block_stack@.contains(BlockKind::Begin),
{
    let mut k: usize = 0;
    while k < block_stack.len()
        invariant
            k <= block_stack@.len(),
            forall|m: int| 0 <= m < k ==> block_stack@[m] != BlockKind::Begin,
        decreases block_stack@.len() - k,
    {
        if block_stack[k] == BlockKind::Begin {
            return true;
        }
        k = k + 1;
    }
    false
}

/// Number of bytes of `s` without its trailing white space.
pub fn trim_end_len(s: &str) -> (res: usize)
    ensures
        res == byte_len(trimmed_end(s@)),
        res <= s.spec_bytes().len(),
        is_char_boundary(s.spec_bytes(), res as int),
{
    let chars = to_chars(s);
    let total: usize = s.as_bytes().len();
    let end = trailing_end(&chars, 0);
    proof {
        assert(chars@.skip(0) == s@);
        assert(chars@.subrange(0, end as int) == s@.take(end as int));
        lemma_prefix_len(s@, end as int, s@.len() as int);
        lemma_prefix_boundary(s@, end as int);
    }
    let mut bytes: usize = 0;
    let mut k: usize = 0;
    assert(s@.take(0) == Seq::<char>::empty());
    while k < end
        invariant
            chars@ == s@,
            k <= end <= s@.len(),
            bytes == byte_len(s@.take(k as int)),
            byte_len(s@.take(end as int)) <= total,
        decreases end - k,
    {
        let w = char_width(chars[k]);
        proof {
            assert(s@.take(k + 1) == s@.take(k as int) + seq![s@[k as int]]);
            lemma_encode_concat(s@.take(k as int), seq![s@[k as int]]);
            lemma_prefix_len(s@, k + 1, end as int);
        }
        bytes = bytes + w;
        k = k + 1;
    }
    bytes
}

/// Returns the byte ranges (start..end, end exclusive) of each non-empty
/// statement in `sql`. The trailing `;` is included in the range.
///
/// Compound statements (`CREATE PROCEDURE ... BEGIN ... END;`) are emitted as
/// a single range: their internal `;` are not treated as boundaries.
pub fn split_statements(sql: &str) -> (res: Vec<Range<usize>>)
    ensures
        spans(res@) == statements(sql@),
        hold_text(sql.spec_bytes(), spans(res@)),
{
    proof {
        lemma_trimmed_byte_len(sql@);
        lemma_reached_first(encode_utf8(sql@));
        lemma_hold_text(encode_utf8(sql@), byte_len(trimmed_end(sql@)), 0, None, seq![]);
    }
    let bytes = sql.as_bytes();
    let size: usize = bytes.len();
    let trimmed: usize = trim_end_len(sql);
    let mut out: Vec<Range<usize>> = Vec::new();
    let mut stmt_start: Option<usize> = None;
    let mut block_stack: Vec<BlockKind> = Vec::new();
    let mut i: usize = 0;
    let ghost whole = statements(sql@);
    assert(spans(out@) + whole == whole);
    while i < size
        invariant
            bytes@ == encode_utf8(sql@),
            size == bytes@.len(),
            trimmed == byte_len(trimmed_end(sql@)),
            i <= size,
            whole == spans(out@) + statements_from(
                bytes@,
                trimmed as int,
                i as int,
                open_at(stmt_start),
                block_stack@,
            ),
        decreases size - i,
    {
        proof {
            lemma_token_end(bytes@, i as int);
        }
        let b: u8 = bytes[i];
        if is_ascii_space(b) {
            i = i + 1;
        } else {
            let start: usize = match stmt_start {
                Some(start) => start,
                None => i,
            };
            if b == 0x3b && !inside_compound(&block_stack) {
                let ghost before = spans(out@);
                let ghost rest = statements_from(
                    bytes@,
                    trimmed as int,
                    i + 1,
                    None,
                    block_stack@,
                );
                if stmt_start.is_some() {
                    out.push(start..i + 1);
                    proof {
                        let stmt = (start as int, i + 1);
                        assert(spans(out@) == before.push(stmt));
                        assert(before + (seq![stmt] + rest) == spans(out@) + rest);
                    }
                }
                stmt_start = None;
                i = i + 1;
            } else if is_word_first_byte(b) && is_word_start(bytes, i) {
                let end = word_end(bytes, i);
                let word = vstd::slice::slice_subrange(bytes, i, end);
                handle_keyword(bytes, end, word, &mut block_stack);
                stmt_start = Some(start);
                i = end;
            } else {
                i = skip_token(bytes, i);
                stmt_start = Some(start);
            }
        }
    }
    if let Some(start) = stmt_start {
        // Trailing content with no semicolon is still a statement.
        if trimmed > start {
            let ghost before = spans(out@);
            out.push(start..trimmed);
            assert(spans(out@) == before + seq![(start as int, trimmed as int)]);
        }
    }
    assert(spans(out@) == whole);
    out
}

/// The start of the open statement as a position.
pub open spec fn open_at(start: Option<usize>) -> Option<int> {
    match start {
        Some(i) => Some(i as int),
        None => None,
    }
}

/// The statement that holds the offset `cursor`, or else the last one.
pub open spec fn statement_holding(stmts: Seq<(int, int)>, cursor: int) -> Option<(int, int)>
    decreases stmts.len(),
{
    if stmts.len() == 0 {
        None
    } else if stmts[0].0 <= cursor <= stmts[0].1 || stmts.len() == 1 {
        Some(stmts[0])
    } else {
        statement_holding(stmts.drop_first(), cursor)
    }
}

/// The statement to run for the offset `cursor`: the one that holds it, or else
/// the last one. A script without any `;` is taken as a whole.
pub open spec fn statement_for(s: Seq<char>, cursor: int) -> Option<(int, int)> {
    if statements(s).len() > 0 && !s.contains(';') {
        Some((0, byte_len(s)))
    } else {
        statement_holding(statements(s), cursor)
    }
}

/// Whether there is a `;` in `s`.
fn has_separator(s: &str) -> (res: bool)
    ensures
        res == s@.contains(';'),
{
    let chars = to_chars(s);
    let mut k: usize = 0;
    while k < chars.len()
        invariant
            chars@ == s@,
            k <= chars@.len(),
            forall|m: int| 0 <= m < k ==> chars@[m] != ';',
        decreases chars@.len() - k,
    {
        if chars[k] == ';' {
            assert(s@[k as int] == ';');
            return true;
        }
        k = k + 1;
    }
    false
}

/// Returns the range of the statement containing the byte offset `cursor`,
/// or the last statement if no statement contains it. Falls back to a range
/// covering the whole text if there are no semicolons. `None` when there is no
/// statement at all.
pub fn statement_at_cursor(sql: &str, cursor: usize) -> (res: Option<Range<usize>>)
    ensures
        match res {
            Some(r) => statement_for(sql@, cursor as int) == Some((r.start as int, r.end as int)),
            None => statement_for(sql@, cursor as int) is None,
        },
{
    let stmts = split_statements(sql);
    let ghost all = statements(sql@);
    if stmts.len() == 0 {
        return None;
    }
    if !has_separator(sql) {
        return Some(0..sql.as_bytes().len());
    }
    let mut k: usize = 0;
    assert(all.skip(0) == all);
    while k < stmts.len()
        invariant
            all == statements(sql@),
            sql@.contains(';'),
            spans(stmts@) == all,
            k <= stmts@.len(),
            k < stmts@.len() ==> statement_holding(all, cursor as int) == statement_holding(
                all.skip(k as int),
                cursor as int,
            ),
            k == stmts@.len() ==> k > 0 && statement_holding(all, cursor as int) == Some(all[k - 1]),
            stmts@.len() > 0,
        decreases stmts@.len() - k,
    {
        assert(all[k as int] == (stmts@[k as int].start as int, stmts@[k as int].end as int));
        assert(all.skip(k as int).drop_first() == all.skip(k + 1));
        assert(all.skip(k as int)[0] == all[k as int]);
        if cursor >= stmts[k].start && cursor <= stmts[k].end {
            return Some(stmts[k].start..stmts[k].end);
        }
        k = k + 1;
    }
    let last = stmts.len() - 1;
    Some(stmts[last].start..stmts[last].end)
}

/// Position `p` holds a `;` that separates statements: reading tokens from
/// `i` on with the blocks `stack` open, `p` is a token of its own (so not
/// inside a string, a quoted identifier or a comment) and no compound
/// `BEGIN` is open there.
pub open spec fn separates(b: Seq<u8>, i: int, stack: Seq<BlockKind>, p: int) -> bool
    decreases b.len() - i,
{
    if i < 0 || i >= b.len() || i > p {
        false
    } else if i == p {
        b[i] == 0x3b && !stack.contains(BlockKind::Begin)
    } else if is_space(b[i]) {
        separates(b, i + 1, stack, p)
    } else {
        proof {
            lemma_token_end(b, i);
        }
        if is_word_at(b, i) {
            separates(
                b,
                word_stop(b, i),
                blocks_after(b, word_stop(b, i), word_at(b, i), stack),
                p,
            )
        } else {
            separates(b, token_end(b, i), stack, p)
        }
    }
}

/// There is statement text before position `p`: a byte that is no white space,
/// with no separator from there on to `p`.
pub open spec fn text_before(b: Seq<u8>, p: int) -> bool {
    exists|q: int|
        0 <= q < p && !is_space(#[trigger] b[q]) && forall|m: int|
            q <= m < p ==> !#[trigger] separates(b, 0, seq![], m)
}

/// Position `p` holds a separator that ends a statement.
pub open spec fn closes(b: Seq<u8>, p: int) -> bool {
    separates(b, 0, seq![], p) && text_before(b, p)
}

/// Position `p` holds a separator with no statement before it.
pub open spec fn stands_alone(b: Seq<u8>, p: int) -> bool {
    separates(b, 0, seq![], p) && !text_before(b, p)
}

/// Each range begins with statement text: with neither white space nor `;`.
pub open spec fn hold_text(b: Seq<u8>, r: Seq<(int, int)>) -> bool {
    forall|k: int|
        0 <= k < r.len() ==> !is_space(b[(#[trigger] r[k]).0]) && b[r[k].0] != 0x3b
}

/// Reading tokens from the start of `b` comes to position `i`, with the
/// statement at `open` and the blocks `stack` open.
spec fn reached(b: Seq<u8>, i: int, open: Option<int>, stack: Seq<BlockKind>) -> bool {
    &&& 0 <= i <= b.len()
    &&& forall|m: int| i <= m ==> #[trigger] separates(b, 0, seq![], m) == separates(b, i, stack, m)
    &&& open is Some <==> text_before(b, i)
    &&& open is None ==> !stack.contains(BlockKind::Begin)
    &&& open matches Some(start) ==> 0 <= start < i && !is_space(b[start]) && b[start] != 0x3b
        && forall|m: int| start <= m < i ==> !#[trigger] separates(b, 0, seq![], m)
}

/// The statement that a token at `i` belongs to.
pub open spec fn opened(open: Option<int>, i: int) -> int {
    match open {
        Some(start) => start,
        None => i,
    }
}

proof fn lemma_reached_first(b: Seq<u8>)
    ensures
        reached(b, 0, None, seq![]),
{
}

/// What is reached after the white space or token at `i`.
proof fn lemma_reached_next(b: Seq<u8>, i: int, open: Option<int>, stack: Seq<BlockKind>)
    requires
        reached(b, i, open, stack),
        i < b.len(),
    ensures
        ({
            let start = opened(open, i);
            let stop = word_stop(b, i);
            if is_space(b[i]) {
                reached(b, i + 1, open, stack)
            } else if b[i] == 0x3b && !stack.contains(BlockKind::Begin) {
                separates(b, 0, seq![], i) && reached(b, i + 1, None, stack)
            } else if is_word_at(b, i) {
                reached(b, stop, Some(start), blocks_after(b, stop, word_at(b, i), stack))
            } else {
                reached(b, token_end(b, i), Some(start), stack)
            }
        }),
{
    lemma_token_end(b, i);
    let start = opened(open, i);
    let none = Seq::<BlockKind>::empty();
    assert(separates(b, 0, none, i) == separates(b, i, stack, i));
    if is_space(b[i]) {
        assert(!separates(b, 0, none, i));
        assert(text_before(b, i + 1) == text_before(b, i)) by {
            if text_before(b, i + 1) {
                let q = choose|q: int|
                    0 <= q < i + 1 && !is_space(#[trigger] b[q]) && forall|m: int|
                        q <= m < i + 1 ==> !#[trigger] separates(b, 0, none, m);
                assert(q < i);
            }
            if text_before(b, i) {
                let q = choose|q: int|
                    0 <= q < i && !is_space(#[trigger] b[q]) && forall|m: int|
                        q <= m < i ==> !#[trigger] separates(b, 0, none, m);
                assert(!is_space(b[q]));
            }
        }
        assert forall|m: int| i + 1 <= m implies #[trigger] separates(b, 0, none, m) == separates(
            b,
            i + 1,
            stack,
            m,
        ) by {
            assert(separates(b, 0, none, m) == separates(b, i, stack, m));
        }
    } else if b[i] == 0x3b && !stack.contains(BlockKind::Begin) {
        assert(separates(b, 0, none, i));
        assert(!text_before(b, i + 1)) by {
            if text_before(b, i + 1) {
                let q = choose|q: int|
                    0 <= q < i + 1 && !is_space(#[trigger] b[q]) && forall|m: int|
                        q <= m < i + 1 ==> !#[trigger] separates(b, 0, none, m);
                assert(!separates(b, 0, none, i));
            }
        }
        assert forall|m: int| i + 1 <= m implies #[trigger] separates(b, 0, none, m) == separates(
            b,
            i + 1,
            stack,
            m,
        ) by {
            assert(separates(b, 0, none, m) == separates(b, i, stack, m));
            assert(token_end(b, i) == i + 1);
        }
    } else {
        let (next, blocks) = if is_word_at(b, i) {
            (word_stop(b, i), blocks_after(b, word_stop(b, i), word_at(b, i), stack))
        } else {
            (token_end(b, i), stack)
        };
        assert(!separates(b, 0, none, i));
        assert forall|m: int| i < m implies #[trigger] separates(b, 0, none, m) == separates(
            b,
            next,
            blocks,
            m,
        ) by {
            assert(separates(b, 0, none, m) == separates(b, i, stack, m));
        }
        assert forall|m: int| start <= m < next implies !#[trigger] separates(b, 0, none, m) by {
            if m > i {
                assert(separates(b, 0, none, m) == separates(b, next, blocks, m));
            }
        }
        if open is None {
            assert(b[i] != 0x3b);
        }
        assert(text_before(b, next)) by {
            assert(!is_space(b[start]));
        }
    }
}

/// Ranges that are not empty, do not overlap, and stand in order between
/// `lo` and `hi`.
pub open spec fn in_order(r: Seq<(int, int)>, lo: int, hi: int) -> bool {
    &&& forall|k: int| 0 <= k < r.len() ==> lo <= (#[trigger] r[k]).0 < r[k].1 <= hi
    &&& forall|j: int, k: int| 0 <= j < k < r.len() ==> (#[trigger] r[j]).1 <= (#[trigger] r[k]).0
}

/// Position `p` lies in one of the ranges.
pub open spec fn covered(r: Seq<(int, int)>, p: int) -> bool {
    exists|k: int| 0 <= k < r.len() && (#[trigger] r[k]).0 <= p < r[k].1
}

/// One of the ranges ends just past position `p`.
pub open spec fn ends_at(r: Seq<(int, int)>, p: int) -> bool {
    exists|k: int| 0 <= k < r.len() && (#[trigger] r[k]).1 == p + 1
}

/// Every range starts and ends on a character boundary of `b`.
pub open spec fn on_boundaries(b: Seq<u8>, r: Seq<(int, int)>) -> bool {
    forall|k: int|
        0 <= k < r.len() ==> is_char_boundary(b, (#[trigger] r[k]).0) && is_char_boundary(
            b,
            r[k].1,
        )
}

proof fn lemma_in_order(b: Seq<u8>, end: int, i: int, open: Option<int>, stack: Seq<BlockKind>)
    requires
        0 <= i <= b.len(),
        end <= b.len(),
        open matches Some(start) ==> 0 <= start < i,
    ensures
        in_order(
            statements_from(b, end, i, open, stack),
            match open {
                Some(start) => start,
                None => i,
            },
            b.len() as int,
        ),
    decreases b.len() - i,
{
    if i < b.len() {
        lemma_token_end(b, i);
        let start = match open {
            Some(start) => start,
            None => i,
        };
        if is_space(b[i]) {
            lemma_in_order(b, end, i + 1, open, stack);
        } else if b[i] == 0x3b && !stack.contains(BlockKind::Begin) {
            let rest = statements_from(b, end, i + 1, None, stack);
            lemma_in_order(b, end, i + 1, None, stack);
            if open is Some {
                let all = seq![(start, i + 1)] + rest;
                assert forall|j: int, k: int| 0 <= j < k < all.len() implies (#[trigger] all[j]).1
                    <= (#[trigger] all[k]).0 by {
                    assert(all[k] == rest[k - 1]);
                    if j > 0 {
                        assert(all[j] == rest[j - 1]);
                    }
                }
                assert forall|k: int| 0 <= k < all.len() implies start <= (#[trigger] all[k]).0
                    < all[k].1 <= b.len() by {
                    if k > 0 {
                        assert(all[k] == rest[k - 1]);
                    }
                }
            }
        } else if is_word_at(b, i) {
            let next = word_stop(b, i);
            lemma_in_order(b, end, next, Some(start), blocks_after(b, next, word_at(b, i), stack));
        } else {
            lemma_in_order(b, end, token_end(b, i), Some(start), stack);
        }
    }
}

/// Every range begins with statement text.
proof fn lemma_hold_text(b: Seq<u8>, end: int, i: int, open: Option<int>, stack: Seq<BlockKind>)
    requires
        reached(b, i, open, stack),
    ensures
        hold_text(b, statements_from(b, end, i, open, stack)),
    decreases b.len() - i,
{
    if i < b.len() {
        lemma_token_end(b, i);
        lemma_reached_next(b, i, open, stack);
        let start = opened(open, i);
        if is_space(b[i]) {
            lemma_hold_text(b, end, i + 1, open, stack);
        } else if b[i] == 0x3b && !stack.contains(BlockKind::Begin) {
            let rest = statements_from(b, end, i + 1, None, stack);
            lemma_hold_text(b, end, i + 1, None, stack);
            if open is Some {
                let r = seq![(start, i + 1)] + rest;
                assert forall|k: int| 0 <= k < r.len() implies !is_space(b[(#[trigger] r[k]).0])
                    && b[r[k].0] != 0x3b by {
                    if k > 0 {
                        assert(r[k] == rest[k - 1]);
                    }
                }
            }
        } else if is_word_at(b, i) {
            let next = word_stop(b, i);
            lemma_hold_text(b, end, next, Some(start), blocks_after(b, next, word_at(b, i), stack));
        } else {
            lemma_hold_text(b, end, token_end(b, i), Some(start), stack);
        }
    }
}

proof fn lemma_cover(
    b: Seq<u8>,
    end: int,
    i: int,
    open: Option<int>,
    stack: Seq<BlockKind>,
    p: int,
)
    requires
        reached(b, i, open, stack),
        end <= b.len(),
        p < end,
        open matches Some(start) ==> start <= p,
        open is None ==> i <= p,
        !is_space(b[p]),
        !stands_alone(b, p),
    ensures
        covered(statements_from(b, end, i, open, stack), p),
    decreases b.len() - i,
{
    let r = statements_from(b, end, i, open, stack);
    let start = opened(open, i);
    if i == b.len() {
        assert(r[0].0 <= p < r[0].1);
    } else {
        lemma_token_end(b, i);
        lemma_reached_next(b, i, open, stack);
        if is_space(b[i]) {
            lemma_cover(b, end, i + 1, open, stack, p);
        } else if b[i] == 0x3b && !stack.contains(BlockKind::Begin) {
            let rest = statements_from(b, end, i + 1, None, stack);
            if p <= i {
                assert(open is Some);
                assert(r[0] == (start, i + 1));
            } else {
                lemma_cover(b, end, i + 1, None, stack, p);
                let k = choose|k: int| 0 <= k < rest.len() && (#[trigger] rest[k]).0 <= p < rest[k].1;
                if open is Some {
                    assert(r[k + 1] == rest[k]);
                } else {
                    assert(r[k] == rest[k]);
                }
            }
        } else if is_word_at(b, i) {
            let next = word_stop(b, i);
            lemma_cover(
                b,
                end,
                next,
                Some(start),
                blocks_after(b, next, word_at(b, i), stack),
                p,
            );
        } else {
            lemma_cover(b, end, token_end(b, i), Some(start), stack, p);
        }
    }
}

/// A separator that stands alone belongs to no statement.
proof fn lemma_alone(
    b: Seq<u8>,
    end: int,
    i: int,
    open: Option<int>,
    stack: Seq<BlockKind>,
    p: int,
)
    requires
        reached(b, i, open, stack),
        end <= b.len(),
        i <= p,
        stands_alone(b, p),
    ensures
        !covered(statements_from(b, end, i, open, stack), p),
    decreases b.len() - i,
{
    let r = statements_from(b, end, i, open, stack);
    let start = opened(open, i);
    assert(separates(b, i, stack, p));
    lemma_separates_later(b, i, stack, p);
    lemma_token_end(b, i);
    lemma_reached_next(b, i, open, stack);
    if is_space(b[i]) {
        lemma_alone(b, end, i + 1, open, stack, p);
    } else if b[i] == 0x3b && !stack.contains(BlockKind::Begin) {
        let rest = statements_from(b, end, i + 1, None, stack);
        if p == i {
            assert(open is None);
            lemma_in_order(b, end, i + 1, None, stack);
        } else {
            lemma_alone(b, end, i + 1, None, stack, p);
            if covered(r, p) && open is Some {
                let k = choose|k: int| 0 <= k < r.len() && (#[trigger] r[k]).0 <= p < r[k].1;
                assert(k > 0);
                assert(r[k] == rest[k - 1]);
            }
        }
    } else if is_word_at(b, i) {
        let next = word_stop(b, i);
        let blocks = blocks_after(b, next, word_at(b, i), stack);
        lemma_separates_later(b, next, blocks, p);
        lemma_alone(b, end, next, Some(start), blocks, p);
    } else {
        lemma_separates_later(b, token_end(b, i), stack, p);
        lemma_alone(b, end, token_end(b, i), Some(start), stack, p);
    }
}

proof fn lemma_separators(
    b: Seq<u8>,
    end: int,
    i: int,
    open: Option<int>,
    stack: Seq<BlockKind>,
    p: int,
)
    requires
        reached(b, i, open, stack),
        i <= p,
        closes(b, p),
    ensures
        ends_at(statements_from(b, end, i, open, stack), p),
    decreases b.len() - i,
{
    let r = statements_from(b, end, i, open, stack);
    let start = opened(open, i);
    assert(separates(b, i, stack, p));
    lemma_separates_later(b, i, stack, p);
    lemma_token_end(b, i);
    lemma_reached_next(b, i, open, stack);
    if is_space(b[i]) {
        lemma_separators(b, end, i + 1, open, stack, p);
    } else if b[i] == 0x3b && !stack.contains(BlockKind::Begin) {
        let rest = statements_from(b, end, i + 1, None, stack);
        if p == i {
            assert(r[0] == (start, i + 1));
        } else {
            lemma_separators(b, end, i + 1, None, stack, p);
            let k = choose|k: int| 0 <= k < rest.len() && (#[trigger] rest[k]).1 == p + 1;
            if open is Some {
                assert(r[k + 1] == rest[k]);
            } else {
                assert(r[k] == rest[k]);
            }
        }
    } else if is_word_at(b, i) {
        let next = word_stop(b, i);
        let blocks = blocks_after(b, next, word_at(b, i), stack);
        lemma_separates_later(b, next, blocks, p);
        lemma_separators(b, end, next, Some(start), blocks, p);
    } else {
        lemma_separates_later(b, token_end(b, i), stack, p);
        lemma_separators(b, end, token_end(b, i), Some(start), stack, p);
    }
}

proof fn lemma_ends(
    b: Seq<u8>,
    end: int,
    i: int,
    open: Option<int>,
    stack: Seq<BlockKind>,
    k: int,
)
    requires
        reached(b, i, open, stack),
        0 <= k < statements_from(b, end, i, open, stack).len(),
    ensures
        ({
            let r = statements_from(b, end, i, open, stack);
            closes(b, r[k].1 - 1) || (k == r.len() - 1 && r[k].1 == end)
        }),
    decreases b.len() - i,
{
    let r = statements_from(b, end, i, open, stack);
    if i < b.len() {
        lemma_token_end(b, i);
        lemma_reached_next(b, i, open, stack);
        let start = opened(open, i);
        if is_space(b[i]) {
            lemma_ends(b, end, i + 1, open, stack, k);
        } else if b[i] == 0x3b && !stack.contains(BlockKind::Begin) {
            let rest = statements_from(b, end, i + 1, None, stack);
            if open is None {
                lemma_ends(b, end, i + 1, None, stack, k);
            } else if k == 0 {
                assert(r[0] == (start, i + 1));
            } else {
                assert(r[k] == rest[k - 1]);
                lemma_ends(b, end, i + 1, None, stack, k - 1);
            }
        } else if is_word_at(b, i) {
            let next = word_stop(b, i);
            let blocks = blocks_after(b, next, word_at(b, i), stack);
            lemma_ends(b, end, next, Some(start), blocks, k);
        } else {
            lemma_ends(b, end, token_end(b, i), Some(start), stack, k);
        }
    }
}

proof fn lemma_separates_later(b: Seq<u8>, i: int, stack: Seq<BlockKind>, p: int)
    ensures
        separates(b, i, stack, p) ==> i <= p < b.len() && b[p] == 0x3b,
    decreases b.len() - i,
{
    if 0 <= i < b.len() && i != p {
        if is_space(b[i]) {
            lemma_separates_later(b, i + 1, stack, p);
        } else {
            lemma_token_end(b, i);
            if is_word_at(b, i) {
                let next = word_stop(b, i);
                lemma_separates_later(b, next, blocks_after(b, next, word_at(b, i), stack), p);
            } else {
                lemma_separates_later(b, token_end(b, i), stack, p);
            }
        }
    }
}

proof fn lemma_boundaries(b: Seq<u8>, end: int, i: int, open: Option<int>, stack: Seq<BlockKind>)
    requires
        valid_utf8(b),
        0 <= i <= b.len(),
        is_char_boundary(b, end),
        open matches Some(start) ==> is_char_boundary(b, start),
        open is None ==> i == 0 || b[i - 1] < 0x80,
    ensures
        on_boundaries(b, statements_from(b, end, i, open, stack)),
    decreases b.len() - i,
{
    if i < b.len() {
        lemma_token_end(b, i);
        assert(is_char_boundary(b, 0));
        if i > 0 && b[i - 1] < 0x80 {
            lemma_boundary_after_ascii(b, i);
        }
        let start = match open {
            Some(start) => start,
            None => i,
        };
        if is_space(b[i]) {
            lemma_boundaries(b, end, i + 1, open, stack);
        } else if b[i] == 0x3b && !stack.contains(BlockKind::Begin) {
            let rest = statements_from(b, end, i + 1, None, stack);
            lemma_boundary_after_ascii(b, i + 1);
            lemma_boundaries(b, end, i + 1, None, stack);
            let r = statements_from(b, end, i, open, stack);
            if open is Some {
                assert(r == seq![(start, i + 1)] + rest);
                assert forall|k: int| 0 <= k < r.len() implies is_char_boundary(
                    b,
                    (#[trigger] r[k]).0,
                ) && is_char_boundary(b, r[k].1) by {
                    if k > 0 {
                        assert(r[k] == rest[k - 1]);
                    }
                }
            }
        } else if is_word_at(b, i) {
            let next = word_stop(b, i);
            lemma_boundaries(b, end, next, Some(start), blocks_after(b, next, word_at(b, i), stack));
        } else {
            lemma_boundaries(b, end, token_end(b, i), Some(start), stack);
        }
    }
}

proof fn lemma_trimmed_end_prefix(s: Seq<char>)
    ensures
        trimmed_end(s).len() <= s.len(),
        trimmed_end(s) == s.take(trimmed_end(s).len() as int),
    decreases s.len(),
{
    if s.len() > 0 && crate::text::is_white_space(s.last()) {
        lemma_trimmed_end_prefix(s.drop_last());
        assert(s.drop_last().take(trimmed_end(s).len() as int) == s.take(
            trimmed_end(s).len() as int,
        ));
    } else {
        assert(s.take(s.len() as int) == s);
    }
}

proof fn lemma_trimmed_byte_len(s: Seq<char>)
    ensures
        0 <= byte_len(trimmed_end(s)) <= byte_len(s),
        valid_utf8(encode_utf8(s)),
        is_char_boundary(encode_utf8(s), byte_len(trimmed_end(s))),
{
    lemma_trimmed_end_prefix(s);
    let n = trimmed_end(s).len() as int;
    lemma_prefix_len(s, n, s.len() as int);
    assert(s.take(s.len() as int) == s);
    lemma_prefix_boundary(s, n);
}

/// The statements of a script are non-empty ranges of it that stand in order
/// and do not overlap.
pub proof fn law_statements_in_order(s: Seq<char>)
    ensures
        in_order(statements(s), 0, byte_len(s)),
{
    lemma_trimmed_byte_len(s);
    lemma_in_order(encode_utf8(s), byte_len(trimmed_end(s)), 0, None, seq![]);
}

/// Every statement has text: it begins with neither white space nor `;`, so
/// none is its `;` alone.
pub proof fn law_statements_hold_text(s: Seq<char>)
    ensures
        hold_text(encode_utf8(s), statements(s)),
{
    lemma_reached_first(encode_utf8(s));
    lemma_hold_text(encode_utf8(s), byte_len(trimmed_end(s)), 0, None, seq![]);
}

/// Nothing but white space and separators without a statement is left out:
/// every byte of the script that is not trailing white space, not ASCII white
/// space and not such a separator belongs to a statement.
pub proof fn law_statements_cover(s: Seq<char>, p: int)
    requires
        0 <= p < byte_len(trimmed_end(s)),
        !is_space(encode_utf8(s)[p]),
        !stands_alone(encode_utf8(s), p),
    ensures
        covered(statements(s), p),
{
    lemma_trimmed_byte_len(s);
    lemma_reached_first(encode_utf8(s));
    lemma_cover(encode_utf8(s), byte_len(trimmed_end(s)), 0, None, seq![], p);
}

/// Statements end exactly at the separators that have statement text before
/// them: each `;` that is neither inside a string, a quoted identifier or a
/// comment nor inside a compound `BEGIN ... END`, and that has text before it,
/// ends exactly one statement. A statement ends nowhere else, except that the
/// last one may end with the script. A separator without text before it
/// belongs to no statement.
pub proof fn law_statements_end_at_separators(s: Seq<char>)
    ensures
        forall|p: int| #[trigger] closes(encode_utf8(s), p) ==> ends_at(statements(s), p),
        forall|j: int, k: int|
            0 <= j < k < statements(s).len() ==> (#[trigger] statements(s)[j]).1
                != (#[trigger] statements(s)[k]).1,
        forall|k: int|
            0 <= k < statements(s).len() ==> closes(
                encode_utf8(s),
                (#[trigger] statements(s)[k]).1 - 1,
            ) || (k == statements(s).len() - 1 && statements(s)[k].1 == byte_len(trimmed_end(s))),
        forall|p: int| #[trigger] stands_alone(encode_utf8(s), p) ==> !covered(statements(s), p),
{
    let b = encode_utf8(s);
    let end = byte_len(trimmed_end(s));
    lemma_trimmed_byte_len(s);
    lemma_reached_first(b);
    lemma_in_order(b, end, 0, None, seq![]);
    assert forall|p: int| #[trigger] closes(b, p) implies ends_at(statements(s), p) by {
        lemma_separates_later(b, 0, seq![], p);
        lemma_separators(b, end, 0, None, seq![], p);
    }
    assert forall|j: int, k: int| 0 <= j < k < statements(s).len() implies (#[trigger] statements(
        s,
    )[j]).1 != (#[trigger] statements(s)[k]).1 by {
        assert(statements(s)[j].1 <= statements(s)[k].0);
    }
    assert forall|k: int| 0 <= k < statements(s).len() implies closes(
        b,
        (#[trigger] statements(s)[k]).1 - 1,
    ) || (k == statements(s).len() - 1 && statements(s)[k].1 == end) by {
        lemma_ends(b, end, 0, None, seq![], k);
    }
    assert forall|p: int| #[trigger] stands_alone(b, p) implies !covered(statements(s), p) by {
        lemma_separates_later(b, 0, seq![], p);
        lemma_alone(b, end, 0, None, seq![], p);
    }
}

/// Every statement starts and ends on a character boundary, so it can be cut
/// out of the script.
pub proof fn law_statements_on_boundaries(s: Seq<char>)
    ensures
        valid_utf8(encode_utf8(s)),
        on_boundaries(encode_utf8(s), statements(s)),
{
    lemma_trimmed_byte_len(s);
    lemma_boundaries(encode_utf8(s), byte_len(trimmed_end(s)), 0, None, seq![]);
}

/// The statement chosen for a cursor is one of the statements; it holds the
/// cursor whenever some statement does, and then it is the first that does.
pub proof fn law_statement_holding(stmts: Seq<(int, int)>, cursor: int)
    ensures
        statement_holding(stmts, cursor) is None <==> stmts.len() == 0,
        statement_holding(stmts, cursor) matches Some(r) ==> exists|k: int|
            0 <= k < stmts.len() && #[trigger] stmts[k] == r && (r.0 <= cursor <= r.1 || k
                == stmts.len() - 1) && forall|j: int|
                0 <= j < k ==> !((#[trigger] stmts[j]).0 <= cursor <= stmts[j].1),
    decreases stmts.len(),
{
    if stmts.len() > 0 {
        if stmts[0].0 <= cursor <= stmts[0].1 || stmts.len() == 1 {
        } else {
            let rest = stmts.drop_first();
            law_statement_holding(rest, cursor);
            let r = statement_holding(rest, cursor)->0;
            let k = choose|k: int|
                0 <= k < rest.len() && #[trigger] rest[k] == r && (r.0 <= cursor <= r.1 || k
                    == rest.len() - 1) && forall|j: int|
                    0 <= j < k ==> !((#[trigger] rest[j]).0 <= cursor <= rest[j].1);
            assert(stmts[k + 1] == r);
            assert forall|j: int| 0 <= j < k + 1 implies !((#[trigger] stmts[j]).0 <= cursor
                <= stmts[j].1) by {
                if j > 0 {
                    assert(rest[j - 1] == stmts[j]);
                }
            }
        }
    }
}

/// There is a statement to run exactly where there is a statement at all. It is
/// a non-empty range on character boundaries, so it can be cut out of the
/// script: the whole script where that has no `;`, and else one of its
/// statements.
pub proof fn law_statement_for(s: Seq<char>, cursor: int)
    ensures
        statement_for(s, cursor) is None <==> statements(s).len() == 0,
        statement_for(s, cursor) matches Some(r) ==> {
            &&& 0 <= r.0 < r.1 <= byte_len(s)
            &&& valid_utf8(encode_utf8(s))
            &&& is_char_boundary(encode_utf8(s), r.0)
            &&& is_char_boundary(encode_utf8(s), r.1)
            &&& if s.contains(';') {
                statements(s).contains(r)
            } else {
                r == (0int, byte_len(s))
            }
        },
{
    law_statement_holding(statements(s), cursor);
    law_statements_in_order(s);
    law_statements_on_boundaries(s);
    if statements(s).len() > 0 {
        assert(statements(s)[0].0 < statements(s)[0].1);
        lemma_prefix_boundary(s, 0);
        lemma_prefix_boundary(s, s.len() as int);
        assert(s.take(s.len() as int) =~= s);
        assert(s.take(0) =~= seq![]);
    }
}

/// `c` goes on as `b` from position `n` on, just past a `;`.
pub open spec fn goes_on(c: Seq<u8>, n: int, b: Seq<u8>) -> bool {
    &&& 0 < n
    &&& c.len() == n + b.len()
    &&& c[n - 1] == 0x3b
    &&& forall|k: int| 0 <= k < b.len() ==> c[n + k] == #[trigger] b[k]
}

proof fn lemma_word_stop_moved(c: Seq<u8>, n: int, b: Seq<u8>, j: int)
    requires
        goes_on(c, n, b),
        0 <= j,
    ensures
        word_stop(c, n + j) == n + word_stop(b, j),
    decreases b.len() - j,
{
    if j < b.len() {
        assert(c[n + j] == b[j]);
        if word_byte(b[j]) {
            lemma_word_stop_moved(c, n, b, j + 1);
        }
    }
}

proof fn lemma_newline_moved(c: Seq<u8>, n: int, b: Seq<u8>, j: int)
    requires
        goes_on(c, n, b),
        0 <= j,
    ensures
        newline_at(c, n + j) == n + newline_at(b, j),
    decreases b.len() - j,
{
    if j < b.len() {
        assert(c[n + j] == b[j]);
        if b[j] != 0x0a {
            lemma_newline_moved(c, n, b, j + 1);
        }
    }
}

proof fn lemma_block_moved(c: Seq<u8>, n: int, b: Seq<u8>, j: int)
    requires
        goes_on(c, n, b),
        0 <= j,
    ensures
        block_end(c, n + j) == n + block_end(b, j),
        peek_past_block(c, n + j) == n + peek_past_block(b, j),
    decreases b.len() - j,
{
    if j < b.len() {
        assert(c[n + j] == b[j]);
        if j + 1 < b.len() {
            assert(c[n + (j + 1)] == b[j + 1]);
        }
        lemma_block_moved(c, n, b, j + 1);
    }
}

proof fn lemma_quoted_moved(c: Seq<u8>, n: int, b: Seq<u8>, j: int, quote: u8, escapes: bool)
    requires
        goes_on(c, n, b),
        0 <= j,
    ensures
        quoted_end(c, n + j, quote, escapes) == n + quoted_end(b, j, quote, escapes),
    decreases b.len() + 1 - j,
{
    if j < b.len() {
        assert(c[n + j] == b[j]);
        if j + 1 < b.len() {
            assert(c[n + (j + 1)] == b[j + 1]);
        }
        lemma_quoted_moved(c, n, b, j + 1, quote, escapes);
        lemma_quoted_moved(c, n, b, j + 2, quote, escapes);
    }
}

proof fn lemma_token_moved(c: Seq<u8>, n: int, b: Seq<u8>, j: int)
    requires
        goes_on(c, n, b),
        0 <= j < b.len(),
    ensures
        is_word_at(c, n + j) == is_word_at(b, j),
        token_end(c, n + j) == n + token_end(b, j),
        word_stop(c, n + j) == n + word_stop(b, j),
{
    assert(c[n + j] == b[j]);
    if j > 0 {
        assert(c[n + (j - 1)] == b[j - 1]);
    }
    if j + 1 < b.len() {
        assert(c[n + (j + 1)] == b[j + 1]);
    }
    lemma_word_stop_moved(c, n, b, j);
    lemma_newline_moved(c, n, b, j + 1);
    lemma_newline_moved(c, n, b, j + 2);
    lemma_block_moved(c, n, b, j + 2);
    lemma_quoted_moved(c, n, b, j + 1, 0x27, true);
    lemma_quoted_moved(c, n, b, j + 1, 0x22, true);
    lemma_quoted_moved(c, n, b, j + 1, 0x60, false);
}

proof fn lemma_peek_moved(c: Seq<u8>, n: int, b: Seq<u8>, j: int)
    requires
        goes_on(c, n, b),
        0 <= j <= b.len(),
    ensures
        peek(c, n + j) == n + peek(b, j),
    decreases b.len() - j,
{
    if j < b.len() {
        assert(c[n + j] == b[j]);
        if j + 1 < b.len() {
            assert(c[n + (j + 1)] == b[j + 1]);
        }
        if is_space(b[j]) {
            lemma_peek_moved(c, n, b, j + 1);
        } else if b[j] == 0x2d && j + 1 < b.len() && b[j + 1] == 0x2d {
            lemma_newline_moved(c, n, b, j + 2);
            lemma_newline_at(b, j + 2);
            lemma_peek_moved(c, n, b, newline_at(b, j + 2));
        } else if b[j] == 0x23 {
            lemma_newline_moved(c, n, b, j + 1);
            lemma_newline_at(b, j + 1);
            lemma_peek_moved(c, n, b, newline_at(b, j + 1));
        } else if b[j] == 0x2f && j + 1 < b.len() && b[j + 1] == 0x2a {
            lemma_block_moved(c, n, b, j + 2);
            lemma_peek_past_block(b, j + 2);
            lemma_peek_moved(c, n, b, peek_past_block(b, j + 2));
        }
    }
}

proof fn lemma_word_moved(c: Seq<u8>, n: int, b: Seq<u8>, j: int)
    requires
        goes_on(c, n, b),
        0 <= j <= b.len(),
    ensures
        word_at(c, n + j) == word_at(b, j),
{
    lemma_word_stop_moved(c, n, b, j);
    lemma_word_stop(b, j);
    let stop = word_stop(b, j);
    assert forall|k: int| 0 <= k < stop - j implies c.subrange(n + j, n + stop)[k] == b.subrange(
        j,
        stop,
    )[k] by {
        assert(c[n + (j + k)] == b[j + k]);
    }
    assert(word_at(c, n + j) =~= word_at(b, j));
}

proof fn lemma_blocks_moved(
    c: Seq<u8>,
    n: int,
    b: Seq<u8>,
    after: int,
    word: Seq<u8>,
    stack: Seq<BlockKind>,
)
    requires
        goes_on(c, n, b),
        0 <= after <= b.len(),
    ensures
        blocks_after(c, n + after, word, stack) == blocks_after(b, after, word, stack),
{
    lemma_peek_moved(c, n, b, after);
    lemma_peek(b, after);
    let next = peek(b, after);
    lemma_word_moved(c, n, b, next);
    if next < b.len() {
        assert(c[n + next] == b[next]);
    }
}

/// The ranges, `n` bytes further on.
pub open spec fn moved(r: Seq<(int, int)>, n: int) -> Seq<(int, int)> {
    r.map_values(|x: (int, int)| (x.0 + n, x.1 + n))
}

/// The open statement, `n` bytes further on.
pub open spec fn moved_open(open: Option<int>, n: int) -> Option<int> {
    match open {
        Some(start) => Some(start + n),
        None => None,
    }
}

/// What follows a `;` is split as if it stood alone.
pub proof fn lemma_statements_moved(
    c: Seq<u8>,
    n: int,
    b: Seq<u8>,
    end: int,
    j: int,
    open: Option<int>,
    stack: Seq<BlockKind>,
)
    requires
        goes_on(c, n, b),
        0 <= j <= b.len(),
    ensures
        statements_from(c, n + end, n + j, moved_open(open, n), stack) == moved(
            statements_from(b, end, j, open, stack),
            n,
        ),
    decreases b.len() - j,
{
    let r = statements_from(b, end, j, open, stack);
    if j < b.len() {
        assert(c[n + j] == b[j]);
        lemma_token_end(b, j);
        lemma_token_moved(c, n, b, j);
        let start = opened(open, j);
        if is_space(b[j]) {
            lemma_statements_moved(c, n, b, end, j + 1, open, stack);
        } else if b[j] == 0x3b && !stack.contains(BlockKind::Begin) {
            lemma_statements_moved(c, n, b, end, j + 1, None, stack);
            let rest = statements_from(b, end, j + 1, None, stack);
            assert(moved(seq![(start, j + 1)] + rest, n) =~= seq![(start + n, j + 1 + n)] + moved(
                rest,
                n,
            ));
        } else if is_word_at(b, j) {
            let next = word_stop(b, j);
            let blocks = blocks_after(b, next, word_at(b, j), stack);
            lemma_word_moved(c, n, b, j);
            lemma_blocks_moved(c, n, b, next, word_at(b, j), stack);
            lemma_statements_moved(c, n, b, end, next, Some(start), blocks);
        } else {
            lemma_statements_moved(c, n, b, end, token_end(b, j), Some(start), stack);
        }
    } else {
        assert(statements_from(c, n + end, n + j, moved_open(open, n), stack) =~= moved(r, n));
    }
}

/// Text without quotes, comments and block words: no `'`, `"`, backtick or `#`,
/// no `--` or `/*`, and no word `BEGIN`, `CASE` or `END` in any case.
pub open spec fn is_plain(b: Seq<u8>) -> bool {
    &&& forall|i: int|
        0 <= i < b.len() ==> (#[trigger] b[i]) != 0x27 && b[i] != 0x22 && b[i] != 0x60 && b[i]
            != 0x23
    &&& forall|i: int|
        0 <= i < b.len() - 1 ==> !((#[trigger] b[i]) == 0x2d && b[i + 1] == 0x2d) && !(b[i] == 0x2f
            && b[i + 1] == 0x2a)
    &&& forall|i: int|
        0 <= i < b.len() && #[trigger] is_word_at(b, i) ==> !spells(word_at(b, i), "BEGIN"@)
            && !spells(word_at(b, i), "CASE"@) && !spells(word_at(b, i), "END"@)
}

/// A word that starts in `a` ends before its last byte, where that is a `;`.
proof fn lemma_word_stop_kept(a: Seq<u8>, c: Seq<u8>, i: int)
    requires
        0 <= i < a.len() <= c.len(),
        a.last() == 0x3b,
        forall|k: int| 0 <= k < a.len() ==> c[k] == #[trigger] a[k],
    ensures
        word_stop(c, i) == word_stop(a, i),
        i <= word_stop(a, i) < a.len(),
    decreases a.len() - i,
{
    assert(c[i] == a[i]);
    if word_byte(a[i]) {
        lemma_word_stop_kept(a, c, i + 1);
    }
}

proof fn lemma_concatenated(
    a: Seq<u8>,
    b: Seq<u8>,
    end: int,
    i: int,
    open: Option<int>,
)
    requires
        is_plain(a),
        a.len() > 0,
        a.last() == 0x3b,
        0 <= i <= a.len(),
        i == a.len() ==> open is None,
    ensures
        statements_from(a + b, a.len() + end, i, open, seq![]) == statements_from(
            a,
            a.len() as int,
            i,
            open,
            seq![],
        ) + moved(statements_from(b, end, 0, None, seq![]), a.len() as int),
    decreases a.len() - i,
{
    let c = a + b;
    let n = a.len() as int;
    let none = Seq::<BlockKind>::empty();
    let tail = moved(statements_from(b, end, 0, None, none), n);
    if i == n {
        lemma_statements_moved(c, n, b, end, 0, None, none);
        assert(statements_from(a, n, n, None, none) + tail =~= tail);
    } else {
        assert(c[i] == a[i]);
        if i > 0 {
            assert(c[i - 1] == a[i - 1]);
        }
        if i + 1 < n {
            assert(c[i + 1] == a[i + 1]);
        }
        lemma_token_end(a, i);
        let start = opened(open, i);
        if is_space(a[i]) {
            lemma_concatenated(a, b, end, i + 1, open);
        } else if a[i] == 0x3b {
            lemma_concatenated(a, b, end, i + 1, None);
            let rest = statements_from(a, n, i + 1, None, none);
            assert(seq![(start, i + 1)] + (rest + tail) =~= seq![(start, i + 1)] + rest + tail);
        } else if is_word_at(a, i) {
            lemma_word_stop_kept(a, c, i);
            let next = word_stop(a, i);
            assert(word_at(c, i) =~= word_at(a, i));
            lemma_concatenated(a, b, end, next, Some(start));
        } else {
            lemma_concatenated(a, b, end, i + 1, Some(start));
        }
    }
}

/// Only what follows a character that is no white space is trimmed.
pub proof fn lemma_trimmed_concat(a: Seq<char>, b: Seq<char>)
    requires
        a.len() > 0,
        !crate::text::is_white_space(a.last()),
    ensures
        trimmed_end(a + b) == a + trimmed_end(b),
    decreases b.len(),
{
    let c = a + b;
    if b.len() == 0 {
        assert(c =~= a);
        assert(a + trimmed_end(b) =~= a);
    } else {
        assert(c.last() == b.last());
        assert(c.drop_last() =~= a + b.drop_last());
        if crate::text::is_white_space(b.last()) {
            lemma_trimmed_concat(a, b.drop_last());
        }
    }
}

/// Scripts split one after the other: a text that ends in `;` and has no
/// quotes, comments or block words, followed by any text, splits into the
/// statements of the first and then those of the second.
pub proof fn law_statements_concatenate(a: Seq<char>, b: Seq<char>)
    requires
        a.len() > 0,
        a.last() == ';',
        is_plain(encode_utf8(a)),
    ensures
        statements(a + b) == statements(a) + moved(statements(b), byte_len(a)),
{
    let first = encode_utf8(a);
    lemma_encode_concat(a, b);
    assert(a =~= a.drop_last() + seq![';']);
    lemma_encode_concat(a.drop_last(), seq![';']);
    assert(first.last() == 0x3b) by {
        assert(seq![';'].drop_first() =~= seq![]);
        reveal_with_fuel(encode_utf8, 2);
        assert((0x3bu32 & 0x7f) as u8 == 0x3b) by (bit_vector);
        assert(encode_utf8(seq![';']) =~= seq![0x3b]);
    }
    lemma_trimmed_concat(a, b);
    lemma_encode_concat(a, trimmed_end(b));
    lemma_concatenated(first, encode_utf8(b), byte_len(trimmed_end(b)), 0, None);
}

/// The statement at the cursor is the first one that holds it, and the last one
/// where none does.
pub proof fn law_statement_at_cursor(s: Seq<char>, cursor: int, k: int)
    requires
        s.contains(';'),
        0 <= k < statements(s).len(),
        forall|j: int|
            0 <= j < k ==> !((#[trigger] statements(s)[j]).0 <= cursor <= statements(s)[j].1),
        statements(s)[k].0 <= cursor <= statements(s)[k].1 || k == statements(s).len() - 1,
    ensures
        statement_for(s, cursor) == Some(statements(s)[k]),
{
    lemma_holding(statements(s), cursor, k);
}

proof fn lemma_holding(stmts: Seq<(int, int)>, cursor: int, k: int)
    requires
        0 <= k < stmts.len(),
        forall|j: int| 0 <= j < k ==> !((#[trigger] stmts[j]).0 <= cursor <= stmts[j].1),
        stmts[k].0 <= cursor <= stmts[k].1 || k == stmts.len() - 1,
    ensures
        statement_holding(stmts, cursor) == Some(stmts[k]),
    decreases k,
{
    if k > 0 {
        let rest = stmts.drop_first();
        assert(!(stmts[0].0 <= cursor <= stmts[0].1));
        assert forall|j: int| 0 <= j < k - 1 implies !((#[trigger] rest[j]).0 <= cursor
            <= rest[j].1) by {
            assert(rest[j] == stmts[j + 1]);
        }
        assert(rest[k - 1] == stmts[k]);
        lemma_holding(rest, cursor, k - 1);
    }
}

/// The bytes that stand for themselves: white space is the space, the tab, line
/// and form feeds and the carriage return; a word begins with an ASCII letter or
/// an underscore, and goes on with these and digits.
pub proof fn law_byte_classes(c: char)
    requires
        c <= '\u{7f}',
    ensures
        is_space(c as u8) <==> c == ' ' || c == '\t' || c == '\n' || c == '\u{c}' || c == '\r',
        word_first_byte(c as u8) <==> 'a' <= c <= 'z' || 'A' <= c <= 'Z' || c == '_',
        word_byte(c as u8) <==> 'a' <= c <= 'z' || 'A' <= c <= 'Z' || c == '_' || '0' <= c <= '9',
{
}

/// Bytes of characters beyond ASCII are neither white space nor part of a word.
pub proof fn law_wide_bytes(b: u8)
    requires
        b >= 0x80,
    ensures
        !is_space(b),
        !word_first_byte(b),
        !word_byte(b),
{
}

} // verus!
