//! Occurrences of a byte in a sequence of bytes.

use vstd::prelude::*;

verus! {

/// The byte that ends a line.
pub const NEWLINE: u8 = 10;

/// The number of positions of `bytes` that hold `needle`.
pub open spec fn count_byte(bytes: Seq<u8>, needle: u8) -> nat {
    bytes.filter(|b: u8| b == needle).len()
}

/// The number of newline bytes in `bytes`.
pub open spec fn count_newlines(bytes: Seq<u8>) -> nat {
    count_byte(bytes, NEWLINE)
}

/// A sequence holds a byte at most as often as it has positions.
pub proof fn lemma_count_byte_bounded(bytes: Seq<u8>, needle: u8)
    ensures
        count_byte(bytes, needle) <= bytes.len(),
{
    bytes.lemma_filter_len(|b: u8| b == needle);
}

/// Counting is additive over concatenation: a byte on either side of a
/// boundary is counted once, whatever the place of the boundary.
pub proof fn lemma_count_byte_concat(left: Seq<u8>, right: Seq<u8>, needle: u8)
    ensures
        count_byte(left + right, needle) == count_byte(left, needle) + count_byte(right, needle),
{
    Seq::filter_distributes_over_add(left, right, |b: u8| b == needle);
}

/// The empty sequence holds no byte.
pub proof fn lemma_count_byte_empty(needle: u8)
    ensures
        count_byte(Seq::<u8>::empty(), needle) == 0,
{
    Seq::<u8>::empty().lemma_filter_len(|b: u8| b == needle);
}

/// `bytecount::count`: the number of occurrences of `needle` in `haystack`.
/// The crate picks a SIMD, word-at-a-time or bytewise routine by the length
/// of the slice; all of them count the positions equal to `needle`.
#[verifier::external_body]
pub(crate) fn count_occurrences(haystack: &[u8], needle: u8) -> (n: usize)
    ensures
        n == count_byte(haystack@, needle),
{
    bytecount::count(haystack, needle)
}

} // verus!
