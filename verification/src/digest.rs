use vstd::prelude::*;

verus! {

// The BLAKE2b digest of 32 bytes that `holo_hash` computes of a byte string.
pub uninterp spec fn blake2b_256(data: Seq<u8>) -> Seq<u8>;

/// Calls `holo_hash::encode::blake2b_256`, which hashes the bytes with
/// BLAKE2b at an output length of 32. Nothing here is proved of it: the
/// contract gives the digest its name and takes from the function's
/// source that it is 32 bytes long.
#[verifier::external_body]
pub(crate) fn digest_256(data: &Vec<u8>) -> (digest: Vec<u8>)
    ensures
        digest@ == blake2b_256(data@),
        digest@.len() == 32,
{
    holo_hash::encode::blake2b_256(data.as_slice())
}

} // verus!
