//! The chain's hash function.
use vstd::prelude::*;

verus! {

/// What `ckb_hash::blake2b_256` returns for the given bytes: blake2b with a
/// 32-byte digest and the personalization `ckb-default-hash`.
pub uninterp spec fn ckb_blake2b_256(data: Seq<u8>) -> Seq<u8>;

/// Calls `ckb_hash::blake2b_256`. The digest is a function of the input
/// bytes alone; it is named, not described.
#[verifier::external_body]
pub(crate) fn blake2b_256(data: &[u8]) -> (digest: [u8; 32])
    ensures
        digest@ == ckb_blake2b_256(data@),
{
    ckb_hash::blake2b_256(data)
}

/// The first 20 bytes of the hash of `data`.
pub open spec fn spec_blake160(data: Seq<u8>) -> Seq<u8> {
    ckb_blake2b_256(data).subrange(0, 20)
}

/// The first 20 bytes of the hash of `data`.
pub fn blake160(data: &[u8]) -> (r: [u8; 20])
    ensures
        r@ == spec_blake160(data@),
{
    let hash = blake2b_256(data);
    let mut result: [u8; 20] = [0u8; 20];
    let mut k: usize = 0;
    while k < 20
        invariant
            k <= 20,
            hash@ == ckb_blake2b_256(data@),
            forall|j: int| 0 <= j < k ==> result@[j] == hash@[j],
        decreases 20 - k,
    {
        result[k] = hash[k];
        k = k + 1;
    }
    assert(result@ =~= spec_blake160(data@));
    result
}

} // verus!
