//! Cutting a string slice between two of its characters.
//!
//! A `str` can only be cut at a byte offset. This module relates the number of
//! characters in front of a cut to the number of bytes that encode them.

use vstd::prelude::*;
use vstd::utf8::*;

verus! {

/// The number of bytes that encode `chars` in UTF-8.
pub open spec fn encoded_len(chars: Seq<char>) -> nat {
    encode_utf8(chars).len()
}

/// The encoding of a sequence starts with the encoding of any prefix of it:
/// the prefix ends on a character boundary, and what follows the boundary
/// encodes the rest.
pub proof fn lemma_encoded_prefix(chars: Seq<char>, k: int)
    requires
        0 <= k <= chars.len(),
    ensures
        encoded_len(chars.take(k)) <= encoded_len(chars),
        is_char_boundary(encode_utf8(chars), encoded_len(chars.take(k)) as int),
        encode_utf8(chars).subrange(0, encoded_len(chars.take(k)) as int) == encode_utf8(
            chars.take(k),
        ),
        encode_utf8(chars).subrange(
            encoded_len(chars.take(k)) as int,
            encoded_len(chars) as int,
        ) == encode_utf8(chars.skip(k)),
    decreases k,
{
    broadcast use encode_utf8_valid_utf8;

    let bytes = encode_utf8(chars);
    if k == 0 {
        assert(chars.take(0) == Seq::<char>::empty());
        assert(chars.skip(0) == chars);
        assert(bytes.subrange(0, 0) == Seq::<u8>::empty());
        assert(bytes.subrange(0, bytes.len() as int) == bytes);
    } else {
        let tail = chars.drop_first();
        let first = encode_scalar(chars[0] as u32);
        lemma_encoded_prefix(tail, k - 1);
        encode_utf8_first_scalar(chars);
        assert(chars.take(k).drop_first() == tail.take(k - 1));
        assert(chars.skip(k) == tail.skip(k - 1));
        assert(chars.take(k)[0] == chars[0]);
        let n = encoded_len(chars.take(k)) as int;
        let m = encoded_len(tail.take(k - 1)) as int;
        assert(bytes == first + encode_utf8(tail));
        assert(encode_utf8(chars.take(k)) == first + encode_utf8(tail.take(k - 1)));
        assert(n == first.len() + m);
        assert(first.len() > 0);
        assert(pop_first_scalar(bytes) == encode_utf8(tail));
        assert(is_char_boundary(bytes, n));
        assert(bytes.subrange(0, n) == first + encode_utf8(tail).subrange(0, m));
        assert(bytes.subrange(n, bytes.len() as int) == encode_utf8(tail).subrange(
            m,
            encoded_len(tail) as int,
        ));
    }
}

/// A sequence of one character is encoded as that character is.
pub proof fn lemma_encoded_single(c: char)
    ensures
        encode_utf8(seq![c]) == encode_scalar(c as u32),
{
    let s = seq![c];
    assert(s.drop_first() == Seq::<char>::empty());
    assert(encode_utf8(s.drop_first()) == Seq::<u8>::empty());
    assert(encode_utf8(s) == encode_scalar(s[0] as u32) + encode_utf8(s.drop_first()));
    assert(encode_scalar(c as u32) + Seq::<u8>::empty() == encode_scalar(c as u32));
}

/// One more character makes the encoding longer by the bytes of that
/// character.
pub proof fn lemma_encoded_len_step(chars: Seq<char>, k: int)
    requires
        0 <= k < chars.len(),
    ensures
        encoded_len(chars.take(k + 1)) == encoded_len(chars.take(k)) + encode_scalar(
            chars[k] as u32,
        ).len(),
{
    let longer = chars.take(k + 1);
    lemma_encoded_prefix(longer, k);
    assert(longer.take(k) == chars.take(k));
    assert(longer.skip(k) == seq![chars[k]]);
    lemma_encoded_single(chars[k]);
}

/// The number of bytes that encode `c` in UTF-8.
pub fn char_width(c: char) -> (n: usize)
    ensures
        n == encode_scalar(c as u32).len(),
        1 <= n <= 4,
{
    let u: u32 = c as u32;
    if u <= 0x7F {
        1
    } else if u <= 0x7FF {
        2
    } else if u <= 0xFFFF {
        3
    } else {
        4
    }
}

/// Cuts `s` behind its first `k` characters, which take `bytes` bytes.
pub(crate) fn split_at_char<'a>(s: &'a str, Ghost(k): Ghost<int>, bytes: usize) -> (parts: (
    &'a str,
    &'a str,
))
    requires
        0 <= k <= s@.len(),
        bytes == encoded_len(s@.take(k)),
    ensures
        parts.0@ == s@.take(k),
        parts.1@ == s@.skip(k),
{
    broadcast use encode_utf8_decode_utf8;

    proof {
        lemma_encoded_prefix(s@, k);
    }
    let parts = s.split_at(bytes);
    proof {
        assert(encode_utf8(parts.0@) == encode_utf8(s@.take(k)));
        assert(decode_utf8(encode_utf8(parts.0@)) == parts.0@);
        assert(decode_utf8(encode_utf8(s@.take(k))) == s@.take(k));
        assert(encode_utf8(parts.1@) == encode_utf8(s@.skip(k)));
        assert(decode_utf8(encode_utf8(parts.1@)) == parts.1@);
        assert(decode_utf8(encode_utf8(s@.skip(k))) == s@.skip(k));
    }
    parts
}

} // verus!
