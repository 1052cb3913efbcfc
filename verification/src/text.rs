//! Byte-level helpers: NUL-terminated runs, little-endian words and UTF-8 text.

use vstd::prelude::*;
use vstd::slice::slice_subrange;
use vstd::utf8::{decode_utf8, valid_utf8};

verus! {

/// The index of the first NUL byte of `bytes`, or its length when it holds none.
pub open spec fn first_nul(bytes: Seq<u8>) -> int
    decreases bytes.len(),
{
    if bytes.len() == 0 || bytes[0] == 0 {
        0
    } else {
        1 + first_nul(bytes.skip(1))
    }
}

/// The bytes of `bytes` before its first NUL byte; all of them when it holds none.
pub open spec fn until_nul(bytes: Seq<u8>) -> Seq<u8> {
    bytes.take(first_nul(bytes))
}

/// What is left of `bytes` once the run before the first NUL byte and that
/// NUL byte itself are taken away; nothing when there is no NUL byte.
pub open spec fn after_nul(bytes: Seq<u8>) -> Seq<u8> {
    if first_nul(bytes) < bytes.len() {
        bytes.skip(first_nul(bytes) + 1)
    } else {
        Seq::empty()
    }
}

/// Whether `bytes` holds no NUL byte.
pub open spec fn nul_free(bytes: Seq<u8>) -> bool {
    forall|i: int| 0 <= i < bytes.len() ==> bytes[i] != 0
}

/// `first_nul` lies within the sequence, no byte before it is NUL, and the
/// byte at it is NUL unless it is the length.
pub proof fn lemma_first_nul(bytes: Seq<u8>)
    ensures
        0 <= first_nul(bytes) <= bytes.len(),
        forall|i: int| 0 <= i < first_nul(bytes) ==> bytes[i] != 0,
        first_nul(bytes) < bytes.len() ==> bytes[first_nul(bytes)] == 0,
    decreases bytes.len(),
{
    if bytes.len() == 0 || bytes[0] == 0 {
    } else {
        let rest = bytes.skip(1);
        lemma_first_nul(rest);
        assert forall|i: int| 0 <= i < first_nul(bytes) implies bytes[i] != 0 by {
            if i > 0 {
                assert(bytes[i] == rest[i - 1]);
            }
        }
        assert(first_nul(bytes) < bytes.len() ==> bytes[first_nul(bytes)] == rest[first_nul(rest)]);
    }
}

/// An index with the properties of `first_nul` is `first_nul`.
pub proof fn lemma_first_nul_unique(bytes: Seq<u8>, k: int)
    requires
        0 <= k <= bytes.len(),
        forall|i: int| 0 <= i < k ==> bytes[i] != 0,
        k < bytes.len() ==> bytes[k] == 0,
    ensures
        first_nul(bytes) == k,
    decreases bytes.len(),
{
    if bytes.len() == 0 || bytes[0] == 0 {
    } else {
        let rest = bytes.skip(1);
        assert forall|i: int| 0 <= i < k - 1 implies rest[i] != 0 by {
            assert(rest[i] == bytes[i + 1]);
        }
        lemma_first_nul_unique(rest, k - 1);
    }
}

/// Finds the first NUL byte of `bytes`.
pub fn nul_position(bytes: &[u8]) -> (n: usize)
    ensures
        n == first_nul(bytes@),
        n <= bytes@.len(),
{
    let mut n: usize = 0;
    while n < bytes.len() && bytes[n] != 0
        invariant
            n <= bytes@.len(),
            forall|i: int| 0 <= i < n ==> bytes@[i] != 0,
        decreases bytes@.len() - n,
    {
        n += 1;
    }
    proof {
        lemma_first_nul_unique(bytes@, n as int);
    }
    n
}

/// The bytes of a NUL-terminated string that starts at the beginning of
/// `str_buffer`: everything before the first NUL byte, or the whole buffer
/// when no NUL byte follows.
pub fn recover_format_string<'a>(str_buffer: &'a [u8]) -> (format: &'a [u8])
    ensures
        format@ == until_nul(str_buffer@),
{
    let nul_range_end = nul_position(str_buffer);
    slice_subrange(str_buffer, 0, nul_range_end)
}

/// The unsigned number that the first four bytes of `bytes` write, least
/// significant byte first.
pub open spec fn le_u32(bytes: Seq<u8>) -> int
    recommends
        bytes.len() >= 4,
{
    bytes[0] as int + 0x100 * (bytes[1] as int) + 0x1_0000 * (bytes[2] as int) + 0x100_0000 * (
    bytes[3] as int)
}

/// The same four bytes read as a signed number in two's complement.
pub open spec fn le_i32(bytes: Seq<u8>) -> int
    recommends
        bytes.len() >= 4,
{
    if le_u32(bytes) >= 0x8000_0000 {
        le_u32(bytes) - 0x1_0000_0000
    } else {
        le_u32(bytes)
    }
}

/// Reads the little-endian unsigned word at the start of `bytes`.
pub fn read_u32_le(bytes: &[u8]) -> (word: u32)
    requires
        bytes@.len() >= 4,
    ensures
        word == le_u32(bytes@),
{
    let b0: u32 = bytes[0] as u32;
    let b1: u32 = bytes[1] as u32;
    let b2: u32 = bytes[2] as u32;
    let b3: u32 = bytes[3] as u32;
    b0 + 0x100 * b1 + 0x1_0000 * b2 + 0x100_0000 * b3
}

/// Reads the little-endian signed word at the start of `bytes`.
pub fn read_i32_le(bytes: &[u8]) -> (word: i32)
    requires
        bytes@.len() >= 4,
    ensures
        word == le_i32(bytes@),
{
    let unsigned: u32 = read_u32_le(bytes);
    if unsigned >= 0x8000_0000 {
        let low: i32 = (unsigned - 0x8000_0000) as i32;
        low + i32::MIN
    } else {
        unsigned as i32
    }
}

/// Decodes `bytes` as UTF-8 with `std::str::from_utf8` and hands out the
/// characters of the text. Trusted: the bytes are accepted exactly when they
/// are well-formed UTF-8, and the characters are the scalar values that they
/// encode, in order.
#[verifier::external_body]
pub(crate) fn utf8_chars(bytes: &[u8]) -> (text: Option<Vec<char>>)
    ensures
        text is Some <==> valid_utf8(bytes@),
        text matches Some(chars) ==> chars@ == decode_utf8(bytes@),
{
    match std::str::from_utf8(bytes) {
        Ok(s) => Some(s.chars().collect()),
        Err(_) => None,
    }
}

/// Collects characters into a `String` with `String::from_iter`. Trusted:
/// the string holds the same characters in the same order.
#[verifier::external_body]
pub(crate) fn string_of_chars(chars: &[char]) -> (text: String)
    ensures
        text@ == chars@,
{
    String::from_iter(chars.iter())
}

} // verus!
