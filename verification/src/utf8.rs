//! Byte offsets into text: how positions in the UTF-8 encoding relate to
//! positions in the sequence of characters.

use vstd::prelude::*;
use vstd::string::StringSliceAdditionalSpecFns;
use vstd::utf8::{
    encode_scalar, encode_utf8, is_char_boundary, is_continuation_byte, valid_utf8,
    length_of_first_scalar, pop_first_scalar,
};

verus! {

/// Number of bytes that the UTF-8 encoding of `s` takes.
pub open spec fn byte_len(s: Seq<char>) -> int {
    encode_utf8(s).len() as int
}

/// Encoding a concatenation concatenates the encodings.
pub proof fn lemma_encode_concat(a: Seq<char>, b: Seq<char>)
    ensures
        encode_utf8(a + b) == encode_utf8(a) + encode_utf8(b),
    decreases a.len(),
{
    if a.len() == 0 {
        assert(a + b == b);
        assert(encode_utf8(a) + encode_utf8(b) == encode_utf8(b));
    } else {
        assert((a + b).drop_first() == a.drop_first() + b);
        lemma_encode_concat(a.drop_first(), b);
        assert(encode_utf8(a + b) == encode_utf8(a) + encode_utf8(b));
    }
}

/// The encoding of one character has one to four bytes.
pub proof fn lemma_char_width(c: char)
    ensures
        byte_len(seq![c]) == encode_scalar(c as u32).len(),
        1 <= byte_len(seq![c]) <= 4,
{
    let s = seq![c];
    assert(s.drop_first() == Seq::<char>::empty());
    reveal_with_fuel(encode_utf8, 2);
}

/// Encoding a prefix gives a prefix of the encoding.
pub proof fn lemma_prefix_bytes(s: Seq<char>, i: int)
    requires
        0 <= i <= s.len(),
    ensures
        byte_len(s.take(i)) <= byte_len(s),
        encode_utf8(s.take(i)) == encode_utf8(s).subrange(0, byte_len(s.take(i))),
        encode_utf8(s.skip(i)) == encode_utf8(s).subrange(byte_len(s.take(i)), byte_len(s)),
{
    assert(s == s.take(i) + s.skip(i));
    lemma_encode_concat(s.take(i), s.skip(i));
    let a = encode_utf8(s.take(i));
    let b = encode_utf8(s.skip(i));
    assert((a + b).subrange(0, a.len() as int) =~= a);
    assert((a + b).subrange(a.len() as int, (a + b).len() as int) =~= b);
}

proof fn lemma_prefix_grows(s: Seq<char>, i: int, j: int)
    requires
        0 <= i <= j <= s.len(),
    ensures
        byte_len(s.take(i)) + (j - i) <= byte_len(s.take(j)),
    decreases j - i,
{
    if i < j {
        lemma_prefix_grows(s, i, j - 1);
        assert(s.take(j) == s.take(j - 1) + seq![s[j - 1]]);
        lemma_encode_concat(s.take(j - 1), seq![s[j - 1]]);
        lemma_char_width(s[j - 1]);
    }
}

/// A longer prefix has a longer encoding.
pub proof fn lemma_prefix_len(s: Seq<char>, i: int, j: int)
    requires
        0 <= i <= j <= s.len(),
    ensures
        byte_len(s.take(i)) + (j - i) <= byte_len(s.take(j)),
        byte_len(s.take(j)) <= byte_len(s),
        encode_utf8(s.take(i)) == encode_utf8(s).subrange(0, byte_len(s.take(i))),
        encode_utf8(s.skip(i)) == encode_utf8(s).subrange(byte_len(s.take(i)), byte_len(s)),
{
    lemma_prefix_grows(s, i, j);
    lemma_prefix_bytes(s, i);
    lemma_prefix_bytes(s, j);
}

/// The end of every prefix of the characters is a boundary of the encoding.
pub proof fn lemma_prefix_boundary(s: Seq<char>, i: int)
    requires
        0 <= i <= s.len(),
    ensures
        valid_utf8(encode_utf8(s)),
        is_char_boundary(encode_utf8(s), byte_len(s.take(i))),
    decreases i,
{
    broadcast use vstd::utf8::encode_utf8_valid_utf8;

    if i == 0 {
        assert(s.take(0) == Seq::<char>::empty());
    } else {
        let b = encode_utf8(s);
        let rest = s.drop_first();
        vstd::utf8::encode_utf8_first_scalar(s);
        lemma_prefix_boundary(rest, i - 1);
        assert(s.take(i).drop_first() == rest.take(i - 1));
        assert(s.take(i)[0] == s[0]);
        assert(pop_first_scalar(b) == encode_utf8(rest));
        lemma_prefix_len(s, i, s.len() as int);
        assert(s.take(s.len() as int) == s);
    }
}

/// The number of characters that end at or before byte `k`.
pub open spec fn chars_before(s: Seq<char>, k: int) -> int
    decreases s.len(),
{
    if s.len() == 0 {
        0
    } else if k < byte_len(s) {
        chars_before(s.drop_last(), k)
    } else {
        s.len() as int
    }
}

/// Every boundary of the encoding is the end of a prefix of the characters.
pub proof fn lemma_boundary_prefix(s: Seq<char>, k: int)
    requires
        is_char_boundary(encode_utf8(s), k),
    ensures
        0 <= chars_before(s, k) <= s.len(),
        byte_len(s.take(chars_before(s, k))) == k,
    decreases s.len(),
{
    lemma_boundary_exists(s, k);
    let n = choose|n: int| 0 <= n <= s.len() && #[trigger] byte_len(s.take(n)) == k;
    lemma_chars_before(s, n);
}

/// `chars_before` finds the prefix that ends at a given byte.
pub proof fn lemma_chars_before(s: Seq<char>, n: int)
    requires
        0 <= n <= s.len(),
    ensures
        chars_before(s, byte_len(s.take(n))) == n,
    decreases s.len(),
{
    if n == s.len() {
        assert(s.take(n) == s);
    } else {
        lemma_prefix_len(s, n, s.len() as int);
        assert(s.take(s.len() as int) == s);
        assert(s.drop_last().take(n) == s.take(n));
        lemma_chars_before(s.drop_last(), n);
    }
}

proof fn lemma_boundary_exists(s: Seq<char>, k: int)
    requires
        is_char_boundary(encode_utf8(s), k),
    ensures
        exists|n: int| 0 <= n <= s.len() && #[trigger] byte_len(s.take(n)) == k,
    decreases s.len(),
{
    broadcast use vstd::utf8::encode_utf8_valid_utf8;

    let b = encode_utf8(s);
    if k == 0 {
        assert(s.take(0) == Seq::<char>::empty());
        assert(byte_len(s.take(0)) == 0);
    } else {
        assert(0 < k <= b.len());
        vstd::utf8::encode_utf8_first_scalar(s);
        let rest = s.drop_first();
        assert(pop_first_scalar(b) == encode_utf8(rest));
        lemma_boundary_exists(rest, k - length_of_first_scalar(b));
        let m = choose|m: int|
            0 <= m <= rest.len() && #[trigger] byte_len(rest.take(m)) == k - length_of_first_scalar(
                b,
            );
        assert(s.take(m + 1).drop_first() == rest.take(m));
        assert(s.take(m + 1)[0] == s[0]);
        assert(byte_len(s.take(m + 1)) == k);
    }
}

/// The position after an ASCII byte is a boundary.
pub proof fn lemma_boundary_after_ascii(b: Seq<u8>, i: int)
    requires
        valid_utf8(b),
        0 < i <= b.len(),
        b[i - 1] < 0x80,
    ensures
        is_char_boundary(b, i),
{
    vstd::utf8::is_char_boundary_iff_not_is_continuation_byte(b, i - 1);
    assert(!is_continuation_byte(b[i - 1]));
    lemma_boundary_step(b, i - 1);
}

proof fn lemma_boundary_step(b: Seq<u8>, i: int)
    requires
        valid_utf8(b),
        0 <= i < b.len(),
        is_char_boundary(b, i),
        b[i] < 0x80,
    ensures
        is_char_boundary(b, i + 1),
    decreases b.len(),
{
    if i == 0 {
        assert(length_of_first_scalar(b) == 1);
        assert(is_char_boundary(pop_first_scalar(b), 0));
    } else {
        let w = length_of_first_scalar(b);
        assert(is_char_boundary(pop_first_scalar(b), i - w));
        assert(0 <= i - w) by {
            reveal_with_fuel(is_char_boundary, 2);
        }
        lemma_boundary_step(pop_first_scalar(b), i - w);
    }
}

/// The text between two boundaries of `s`.
pub fn slice(s: &str, from: usize, to: usize) -> (res: &str)
    requires
        from <= to,
        is_char_boundary(s.spec_bytes(), from as int),
        is_char_boundary(s.spec_bytes(), to as int),
    ensures
        res.spec_bytes() == s.spec_bytes().subrange(from as int, to as int),
        res@ == s@.subrange(
            chars_before(s@, from as int),
            chars_before(s@, to as int),
        ),
        0 <= chars_before(s@, from as int) <= chars_before(s@, to as int) <= s@.len(),
{
    let ghost b = s.spec_bytes();
    proof {
        vstd::utf8::encode_utf8_valid_utf8(s@);
        lemma_boundary_prefix(s@, from as int);
        lemma_boundary_prefix(s@, to as int);
    }
    let ghost i = chars_before(s@, from as int);
    let ghost j = chars_before(s@, to as int);
    proof {
        if j < i {
            lemma_prefix_len(s@, j, i);
        }
        lemma_prefix_boundary(s@.take(j), i);
        assert(s@.take(j).take(i) == s@.take(i));
        lemma_prefix_len(s@, j, j);
        assert(b.subrange(0, to as int) == encode_utf8(s@.take(j)));
    }
    let (head, _) = s.split_at(to);
    let (_, res) = head.split_at(from);
    proof {
        assert(res.spec_bytes() =~= b.subrange(from as int, to as int));
        let part = s@.subrange(i, j);
        assert(s@.take(j) == s@.take(i) + part);
        lemma_encode_concat(s@.take(i), part);
        assert(encode_utf8(part) =~= b.subrange(from as int, to as int));
        vstd::utf8::encode_utf8_decode_utf8(part);
        vstd::utf8::encode_utf8_decode_utf8(res@);
    }
    res
}

/// Number of bytes that the UTF-8 encoding of `c` takes.
pub fn char_width(c: char) -> (res: usize)
    ensures
        res == byte_len(seq![c]),
        1 <= res <= 4,
{
    proof {
        lemma_char_width(c);
        vstd::utf8::char_is_scalar(c);
    }
    let n: u32 = c as u32;
    if n <= 0x7f {
        1
    } else if n <= 0x7ff {
        2
    } else if n <= 0xffff {
        3
    } else {
        4
    }
}

/// An ASCII character takes one byte, its number.
pub proof fn lemma_ascii_char(c: char)
    requires
        (c as u32) < 0x80,
    ensures
        encode_utf8(seq![c]) == seq![c as u8],
{
    assert(seq![c].drop_first() =~= seq![]);
    reveal_with_fuel(encode_utf8, 2);
    let n = c as u32;
    assert((n & 0x7f) as u8 == n as u8) by (bit_vector)
        requires
            n < 0x80,
    ;
    assert(encode_utf8(seq![c]) =~= seq![c as u8]);
}

/// An ASCII text takes one byte for each character.
pub proof fn lemma_ascii_text(s: Seq<char>)
    requires
        forall|i: int| 0 <= i < s.len() ==> (#[trigger] s[i] as u32) < 0x80,
    ensures
        encode_utf8(s).len() == s.len(),
        forall|i: int| 0 <= i < s.len() ==> (#[trigger] encode_utf8(s)[i]) == s[i] as u8,
    decreases s.len(),
{
    if s.len() > 0 {
        let front = s.drop_last();
        let last = s.last();
        assert((s[s.len() - 1] as u32) < 0x80);
        assert forall|i: int| 0 <= i < front.len() implies (#[trigger] front[i] as u32) < 0x80 by {
            assert(front[i] == s[i]);
        }
        lemma_ascii_text(front);
        lemma_ascii_char(last);
        assert(s =~= front + seq![last]);
        lemma_encode_concat(front, seq![last]);
        assert forall|i: int| 0 <= i < s.len() implies (#[trigger] encode_utf8(s)[i]) == s[i] as u8 by {
            if i < front.len() {
                assert(encode_utf8(front)[i] == front[i] as u8);
            }
        }
    }
}

/// Every byte of a character beyond ASCII is beyond ASCII.
pub proof fn lemma_wide_char(c: char)
    requires
        (c as u32) >= 0x80,
    ensures
        forall|i: int|
            0 <= i < encode_utf8(seq![c]).len() ==> (#[trigger] encode_utf8(seq![c])[i]) >= 0x80,
{
    assert(seq![c].drop_first() =~= seq![]);
    reveal_with_fuel(encode_utf8, 2);
    let n = c as u32;
    vstd::utf8::char_is_scalar(c);
    assert(encode_utf8(seq![c]) =~= encode_scalar(n));
    assert(0xC0u8 | (((n >> 6) & 0x1F) as u8) >= 0x80) by (bit_vector);
    assert(0xE0u8 | (((n >> 12) & 0x0F) as u8) >= 0x80) by (bit_vector);
    assert(0xF0u8 | (((n >> 18) & 0x7) as u8) >= 0x80) by (bit_vector);
    assert(0x80u8 | ((n & 0x3F) as u8) >= 0x80) by (bit_vector);
    assert(0x80u8 | (((n >> 6) & 0x3F) as u8) >= 0x80) by (bit_vector);
    assert(0x80u8 | (((n >> 12) & 0x3F) as u8) >= 0x80) by (bit_vector);
}

proof fn lemma_same_byte(last: char, c: char)
    requires
        (c as u32) < 0x80,
        encode_utf8(seq![last]).last() == c as u8,
    ensures
        last == c,
{
    let tail = encode_utf8(seq![last]);
    lemma_char_width(last);
    if (last as u32) < 0x80 {
        lemma_ascii_char(last);
        assert(tail[0] == last as u8);
    } else {
        lemma_wide_char(last);
        assert(tail[tail.len() - 1] >= 0x80);
    }
}

/// A text whose last byte is that of an ASCII character ends in it.
pub proof fn lemma_last_ascii(s: Seq<char>, c: char)
    requires
        (c as u32) < 0x80,
        s.len() > 0,
        encode_utf8(s).len() > 0,
        encode_utf8(s).last() == c as u8,
    ensures
        s.last() == c,
{
    let front = s.drop_last();
    let last = s.last();
    assert(s =~= front + seq![last]);
    lemma_encode_concat(front, seq![last]);
    lemma_char_width(last);
    lemma_same_byte(last, c);
}

} // verus!
