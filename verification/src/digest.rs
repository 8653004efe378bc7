//! Small helpers for the 32-byte digests that every component passes around.

use vstd::prelude::*;

verus! {

/// The all-zero digest: the value a freshly initialized running root holds.
pub open spec fn zero_digest() -> Seq<u8> {
    Seq::new(32, |i: int| 0u8)
}

/// A fresh all-zero 32-byte value.
pub fn zero_bytes32() -> (r: [u8; 32])
    ensures
        r@ == zero_digest(),
{
    let r = [0u8; 32];
    proof {
        assert(r@ =~= zero_digest());
    }
    r
}

/// Byte-for-byte equality of two 32-byte values.
pub fn bytes32_eq(a: &[u8; 32], b: &[u8; 32]) -> (r: bool)
    ensures
        r == (a@ == b@),
{
    let mut i: usize = 0;
    while i < 32
        invariant
            i <= 32,
            forall|j: int| 0 <= j < i ==> a@[j] == b@[j],
        decreases 32 - i,
    {
        if a[i] != b[i] {
            return false;
        }
        i += 1;
    }
    proof {
        assert(a@ =~= b@);
    }
    true
}

/// Whether a 32-byte value is the all-zero digest.
pub fn is_zero_bytes32(a: &[u8; 32]) -> (r: bool)
    ensures
        r == (a@ == zero_digest()),
{
    let mut i: usize = 0;
    while i < 32
        invariant
            i <= 32,
            forall|j: int| 0 <= j < i ==> a@[j] == 0u8,
        decreases 32 - i,
    {
        if a[i] != 0 {
            return false;
        }
        i += 1;
    }
    proof {
        assert(a@ =~= zero_digest());
    }
    true
}

} // verus!
