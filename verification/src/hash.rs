//! Content hashing. Content is stored under its hash, so equal content is stored
//! once and what comes back can be checked.

use vstd::prelude::*;

verus! {

/// The BLAKE3 hash of some bytes, written as lowercase hexadecimal digits.
pub uninterp spec fn blake3_hex(data: Seq<u8>) -> Seq<char>;

/// Whether `c` is a lowercase hexadecimal digit.
pub open spec fn is_hex(c: char) -> bool {
    '0' <= c <= '9' || 'a' <= c <= 'f'
}

/// Hashes `data` with `blake3::hash` and writes the 32 bytes with `Hash::to_hex`:
/// the text depends on the bytes alone, and is 64 lowercase hexadecimal digits.
#[verifier::external_body]
pub(crate) fn content_hash(data: &[u8]) -> (r: String)
    ensures
        r@ == blake3_hex(data@),
        r@.len() == 64,
        forall|i: int| 0 <= i < r@.len() ==> is_hex(#[trigger] r@[i]),
{
    blake3::hash(data).to_hex().to_string()
}

} // verus!
