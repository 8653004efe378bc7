//! The batch root accumulator: one batch of leaf digests is pairwise-reduced
//! to a single fragment, and successive fragments are chained into a running
//! root. The root is a hash chain over fragments, not a whole-dataset Merkle
//! tree: it can only be reproduced by replaying every batch in order.

use vstd::prelude::*;

use crate::digest::{is_zero_bytes32, zero_digest};
use crate::hashing::{hash_pair, pair_digest};

verus! {

/// One pairwise-reduction step over a layer of digests: each adjacent pair
/// `(x, y)` becomes `H(x ‖ y)`; an unpaired final element is carried forward
/// unchanged.
pub open spec fn reduce_once(layer: Seq<Seq<u8>>) -> Seq<Seq<u8>> {
    Seq::new((layer.len() + 1) / 2, |i: int|
        if 2 * i + 1 < layer.len() {
            pair_digest(layer[2 * i], layer[2 * i + 1])
        } else {
            layer[2 * i]
        })
}

/// The fragment of a batch: the single digest left after repeatedly reducing
/// the layer of leaf digests. A single leaf is its own fragment. (The empty
/// layer has no meaningful fragment; the accumulator never reduces one.)
pub open spec fn fragment_of(layer: Seq<Seq<u8>>) -> Seq<u8>
    decreases layer.len(),
{
    if layer.len() <= 1 {
        if layer.len() == 1 {
            layer[0]
        } else {
            zero_digest()
        }
    } else {
        fragment_of(reduce_once(layer))
    }
}

/// How a new fragment extends the running root: the very first fragment (the
/// root still all-zero) becomes the root directly; afterwards the new root is
/// `H(old_root ‖ fragment)`.
pub open spec fn chained_root(prev: Seq<u8>, fragment: Seq<u8>) -> Seq<u8> {
    if prev == zero_digest() {
        fragment
    } else {
        pair_digest(prev, fragment)
    }
}

/// The digests held by a vector of 32-byte values, as sequences.
pub open spec fn digests_of(v: Seq<[u8; 32]>) -> Seq<Seq<u8>> {
    v.map_values(|a: [u8; 32]| a@)
}

/// A batch with exactly one leaf produces a fragment equal to that leaf's own
/// digest: the reduction never hashes a lone element with itself.
pub proof fn lemma_single_leaf_fragment(leaf: Seq<u8>)
    ensures
        fragment_of(seq![leaf]) == leaf,
{
}

pub struct BatchMerkleTree {
    pub root: [u8; 32],
}

impl BatchMerkleTree {
    /// A fresh accumulator whose running root is the all-zero digest.
    pub fn new() -> (t: Self)
        ensures
            t.root@ == zero_digest(),
    {
        let root = [0u8; 32];
        proof {
            assert(root@ =~= zero_digest());
        }
        BatchMerkleTree { root }
    }

    /// Reduce the batch of leaf digests to its fragment and chain it into the
    /// running root.
    pub fn push_batch(&mut self, leaves: Vec<[u8; 32]>)
        requires
            leaves@.len() >= 1,
        ensures
            final(self).root@ == chained_root(old(self).root@, fragment_of(digests_of(leaves@))),
    {
        let ghost orig: Seq<Seq<u8>> = digests_of(leaves@);
        let mut current = leaves;

        while current.len() > 1
            invariant
                current@.len() >= 1,
                fragment_of(digests_of(current@)) == fragment_of(orig),
            decreases current@.len(),
        {
            let ghost cur_view: Seq<Seq<u8>> = digests_of(current@);
            let mut next: Vec<[u8; 32]> = Vec::new();
            let mut i: usize = 0;
            while i < current.len()
                invariant
                    current@.len() >= 2,
                    i <= current@.len(),
                    i % 2 == 0 || i == current@.len(),
                    next@.len() == (i + 1) / 2,
                    cur_view == digests_of(current@),
                    forall|k: int| 0 <= k < next@.len() ==> next@[k]@ == reduce_once(cur_view)[k],
                decreases current@.len() - i,
            {
                if i + 1 < current.len() {
                    let combined = hash_pair(&current[i], &current[i + 1]);
                    next.push(combined);
                    i += 2;
                } else {
                    let last = current[i];
                    next.push(last);
                    i += 1;
                }
            }
            proof {
                assert(digests_of(next@) =~= reduce_once(cur_view));
            }
            current = next;
        }

        let fragment = current[0];
        proof {
            assert(fragment@ == fragment_of(orig));
        }
        if is_zero_bytes32(&self.root) {
            self.root = fragment;
        } else {
            self.root = hash_pair(&self.root, &fragment);
        }
    }
}

} // verus!
