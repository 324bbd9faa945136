use vstd::prelude::*;

verus! {

/// The BLAKE3 digest of a byte string, as the `blake3` crate computes it.
pub uninterp spec fn blake3_digest(data: Seq<u8>) -> Seq<u8>;

/// Calls `blake3::hash` and converts the result to its 32 bytes. Claimed:
/// the bytes are the BLAKE3 digest of `data` (a function of `data` alone).
#[verifier::external_body]
pub(crate) fn blake3_hash(data: &[u8]) -> (h: [u8; 32])
    ensures
        h@ == blake3_digest(data@),
{
    blake3::hash(data).into()
}

} // verus!
