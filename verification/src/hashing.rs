//! The one cryptographic primitive the ledger uses: a Blake2b-256 digest,
//! taken from the `sp-crypto-hashing` crate. Key identifiers and credential
//! identifiers are both digests.

use vstd::prelude::*;

verus! {

/// The 32-byte Blake2b digest of a byte string. The digest is a function of
/// its input alone; its value on a given input is fixed by the outside
/// implementation and is not stated here.
pub uninterp spec fn blake2_of(input: Seq<u8>) -> Seq<u8>;

/// Relies on `sp_crypto_hashing::blake2_256`: a 32-byte Blake2b digest
/// computed from the input bytes alone.
#[verifier::external_body]
pub(crate) fn blake2_256(data: &[u8]) -> (r: [u8; 32])
    ensures
        r@ == blake2_of(data@),
{
    sp_crypto_hashing::blake2_256(data)
}

} // verus!
