//! The one cryptographic primitive the accumulator rests on: SHA-256, taken
//! from the platform's hashing routine and named, not restated, in specs.

use vstd::prelude::*;

verus! {

/// The SHA-256 digest of a byte sequence, as `solana_program::hash::hashv`
/// computes it. The digest itself is not axiomatized; contracts only relate
/// results of the hashing wrapper below to this name.
pub uninterp spec fn hash_of(input: Seq<u8>) -> Seq<u8>;

/// Relies on `solana_program::hash::hashv`: the SHA-256 digest of the
/// concatenation of the given byte slices, a function of those bytes alone.
#[verifier::external_body]
pub(crate) fn sha256_digest(input: &Vec<u8>) -> (r: [u8; 32])
    ensures
        r@ == hash_of(input@),
{
    solana_program::hash::hashv(&[input.as_slice()]).to_bytes()
}

/// The digest of two digests laid side by side: the node combiner of the
/// batch reduction and of the root chain.
pub open spec fn pair_digest(a: Seq<u8>, b: Seq<u8>) -> Seq<u8> {
    hash_of(a + b)
}

/// Hash the concatenation of two 32-byte digests.
pub fn hash_pair(a: &[u8; 32], b: &[u8; 32]) -> (r: [u8; 32])
    ensures
        r@ == pair_digest(a@, b@),
{
    let mut buf: Vec<u8> = Vec::new();
    buf.extend_from_slice(a.as_slice());
    buf.extend_from_slice(b.as_slice());
    proof {
        assert(buf@ =~= a@ + b@);
    }
    sha256_digest(&buf)
}

} // verus!
