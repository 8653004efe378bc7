//! Per-adapter persisted hash submissions, keyed by (adapter, domain,
//! subject). The write path is a single upsert: re-submission overwrites in
//! place, it does not append history.

use vstd::prelude::*;

use crate::digest::bytes32_eq;

verus! {

/// One adapter's persisted hash record.
#[derive(Clone, Copy, Debug)]
pub struct HashAccount {
    pub adapter_id: [u8; 32],
    pub domain: [u8; 32],
    pub id: [u8; 32],
    pub hash: [u8; 32],
}

/// The composite key a hash record is addressed by; its derivation from the
/// identifying fields is deterministic, so repeated lookups for the same
/// logical key always resolve to the same record.
pub open spec fn record_key(r: HashAccount) -> (Seq<u8>, Seq<u8>, Seq<u8>) {
    (r.adapter_id@, r.domain@, r.id@)
}

/// The context of one store call: the fields that address the record written.
#[derive(Clone, Copy, Debug)]
pub struct StoreHash {
    pub adapter_id: [u8; 32],
    pub domain: [u8; 32],
    pub id: [u8; 32],
}

/// The notification emitted after a store, carrying the written tuple; no
/// acknowledgement is required from any listener.
#[derive(Clone, Copy, Debug)]
pub struct HashStored {
    pub adapter_id: [u8; 32],
    pub domain: [u8; 32],
    pub id: [u8; 32],
    pub hash: [u8; 32],
}

/// The mapping a sequence of records represents, later records shadowing
/// earlier ones with the same key.
pub open spec fn map_of(recs: Seq<HashAccount>) -> Map<(Seq<u8>, Seq<u8>, Seq<u8>), Seq<u8>>
    decreases recs.len(),
{
    if recs.len() == 0 {
        Map::empty()
    } else {
        map_of(recs.drop_last()).insert(record_key(recs.last()), recs.last().hash@)
    }
}

/// No two records share a key.
pub open spec fn unique_keys(recs: Seq<HashAccount>) -> bool {
    forall|i: int, j: int|
        0 <= i < j < recs.len() ==> #[trigger] record_key(recs[i]) != #[trigger] record_key(
            recs[j],
        )
}

/// The keyed store of hash records for one deployment.
pub struct HashRecordStore {
    records: Vec<HashAccount>,
}

proof fn lemma_map_of_contains(recs: Seq<HashAccount>, k: (Seq<u8>, Seq<u8>, Seq<u8>))
    ensures
        map_of(recs).dom().contains(k) <==> exists|i: int|
            0 <= i < recs.len() && record_key(#[trigger] recs[i]) == k,
    decreases recs.len(),
{
    if recs.len() == 0 {
    } else {
        lemma_map_of_contains(recs.drop_last(), k);
        if record_key(recs.last()) == k {
            assert(record_key(recs[recs.len() - 1]) == k);
        } else {
            if exists|i: int| 0 <= i < recs.drop_last().len() && record_key(
                #[trigger] recs.drop_last()[i],
            ) == k {
                let i = choose|i: int|
                    0 <= i < recs.drop_last().len() && record_key(
                        #[trigger] recs.drop_last()[i],
                    ) == k;
                assert(record_key(recs[i]) == k);
            }
            if exists|i: int| 0 <= i < recs.len() && record_key(#[trigger] recs[i]) == k {
                let i = choose|i: int| 0 <= i < recs.len() && record_key(#[trigger] recs[i]) == k;
                assert(record_key(recs.drop_last()[i]) == k);
            }
        }
    }
}

proof fn lemma_map_of_index(recs: Seq<HashAccount>, i: int)
    requires
        unique_keys(recs),
        0 <= i < recs.len(),
    ensures
        map_of(recs).dom().contains(record_key(recs[i])),
        map_of(recs)[record_key(recs[i])] == recs[i].hash@,
    decreases recs.len(),
{
    if i == recs.len() - 1 {
    } else {
        assert(unique_keys(recs.drop_last())) by {
            assert(forall|a: int, b: int|
                0 <= a < b < recs.drop_last().len() ==> #[trigger] record_key(
                    recs.drop_last()[a],
                ) != #[trigger] record_key(recs.drop_last()[b])) by {
                assert(forall|a: int|
                    0 <= a < recs.drop_last().len() ==> #[trigger] recs.drop_last()[a] == recs[a]);
            }
        }
        lemma_map_of_index(recs.drop_last(), i);
        assert(recs.drop_last()[i] == recs[i]);
        assert(record_key(recs[i]) != record_key(recs[recs.len() - 1]));
    }
}

proof fn lemma_map_of_update(recs: Seq<HashAccount>, i: int, v: [u8; 32])
    requires
        unique_keys(recs),
        0 <= i < recs.len(),
    ensures
        map_of(
            recs.update(
                i,
                HashAccount {
                    adapter_id: recs[i].adapter_id,
                    domain: recs[i].domain,
                    id: recs[i].id,
                    hash: v,
                },
            ),
        ) == map_of(recs).insert(record_key(recs[i]), v@),
    decreases recs.len(),
{
    let r2 = HashAccount {
        adapter_id: recs[i].adapter_id,
        domain: recs[i].domain,
        id: recs[i].id,
        hash: v,
    };
    let u = recs.update(i, r2);
    let k = record_key(recs[i]);
    if i == recs.len() - 1 {
        assert(u.drop_last() =~= recs.drop_last());
        assert(u.last() == r2);
        assert(record_key(r2) == k);
        assert(map_of(recs.drop_last()).insert(k, recs.last().hash@).insert(k, v@)
            =~= map_of(recs.drop_last()).insert(k, v@));
    } else {
        assert(unique_keys(recs.drop_last())) by {
            assert(forall|a: int|
                0 <= a < recs.drop_last().len() ==> #[trigger] recs.drop_last()[a] == recs[a]);
        }
        assert(recs.drop_last()[i] == recs[i]);
        lemma_map_of_update(recs.drop_last(), i, v);
        assert(u.drop_last() =~= recs.drop_last().update(i, r2));
        assert(u.last() == recs.last());
        let klast = record_key(recs.last());
        assert(record_key(recs[i]) != record_key(recs[recs.len() - 1]));
        assert(map_of(recs.drop_last()).insert(k, v@).insert(klast, recs.last().hash@)
            =~= map_of(recs.drop_last()).insert(klast, recs.last().hash@).insert(k, v@));
    }
}

impl HashRecordStore {
    /// The store as a mapping from composite key to stored hash.
    pub closed spec fn as_map(&self) -> Map<(Seq<u8>, Seq<u8>, Seq<u8>), Seq<u8>> {
        map_of(self.records@)
    }

    /// Well-formedness: one record per key.
    pub closed spec fn wf(&self) -> bool {
        unique_keys(self.records@)
    }

    /// How many records the store holds.
    pub closed spec fn num_records(&self) -> nat {
        self.records@.len()
    }

    /// An empty store.
    pub fn new() -> (s: Self)
        ensures
            s.wf(),
            s.as_map() == Map::<(Seq<u8>, Seq<u8>, Seq<u8>), Seq<u8>>::empty(),
            s.num_records() == 0,
    {
        HashRecordStore { records: Vec::new() }
    }

    /// How many records the store holds.
    pub fn len(&self) -> (n: usize)
        ensures
            n == self.num_records(),
    {
        self.records.len()
    }

    /// The hash stored under a key, if any.
    pub fn get_hash(&self, adapter_id: &[u8; 32], domain: &[u8; 32], id: &[u8; 32]) -> (r: Option<
        [u8; 32],
    >)
        requires
            self.wf(),
        ensures
            match r {
                Some(h) => self.as_map().dom().contains((adapter_id@, domain@, id@))
                    && self.as_map()[(adapter_id@, domain@, id@)] == h@,
                None => !self.as_map().dom().contains((adapter_id@, domain@, id@)),
            },
    {
        let mut i: usize = 0;
        while i < self.records.len()
            invariant
                i <= self.records@.len(),
                forall|j: int|
                    0 <= j < i ==> record_key(#[trigger] self.records@[j]) != (
                        adapter_id@,
                        domain@,
                        id@,
                    ),
                self.wf(),
            decreases self.records@.len() - i,
        {
            let r = self.records[i];
            if bytes32_eq(&r.adapter_id, adapter_id) && bytes32_eq(&r.domain, domain)
                && bytes32_eq(&r.id, id) {
                proof {
                    lemma_map_of_index(self.records@, i as int);
                }
                return Some(r.hash);
            }
            i += 1;
        }
        proof {
            lemma_map_of_contains(self.records@, (adapter_id@, domain@, id@));
        }
        None
    }
}

/// Upsert the hash stored under the key the context derives, and return the
/// notification event carrying the written tuple. The write never fails; a
/// second write for the same key replaces the first in place.
#[verifier::loop_isolation(false)]
pub fn store_hash(store: &mut HashRecordStore, ctx: &StoreHash, hash: [u8; 32]) -> (ev: HashStored)
    requires
        old(store).wf(),
    ensures
        final(store).wf(),
        final(store).as_map() == old(store).as_map().insert(
            (ctx.adapter_id@, ctx.domain@, ctx.id@),
            hash@,
        ),
        final(store).num_records() == if old(store).as_map().dom().contains(
            (ctx.adapter_id@, ctx.domain@, ctx.id@),
        ) {
            old(store).num_records()
        } else {
            old(store).num_records() + 1
        },
        ev.adapter_id == ctx.adapter_id && ev.domain == ctx.domain && ev.id == ctx.id && ev.hash
            == hash,
{
    let ghost k = (ctx.adapter_id@, ctx.domain@, ctx.id@);
    let mut i: usize = 0;
    while i < store.records.len()
        invariant
            i <= store.records@.len(),
            forall|j: int|
                0 <= j < i ==> record_key(#[trigger] store.records@[j]) != (
                    ctx.adapter_id@,
                    ctx.domain@,
                    ctx.id@,
                ),
            store.wf(),
            store == old(store),
        decreases store.records@.len() - i,
    {
        let r = store.records[i];
        if bytes32_eq(&r.adapter_id, &ctx.adapter_id) && bytes32_eq(&r.domain, &ctx.domain)
            && bytes32_eq(&r.id, &ctx.id) {
            let updated = HashAccount {
                adapter_id: r.adapter_id,
                domain: r.domain,
                id: r.id,
                hash,
            };
            proof {
                lemma_map_of_update(store.records@, i as int, hash);
                lemma_map_of_index(store.records@, i as int);
                assert(record_key(store.records@[i as int]) == k);
            }
            store.records.set(i, updated);
            proof {
                assert(forall|j: int|
                    0 <= j < store.records@.len() ==> record_key(#[trigger] store.records@[j])
                        == record_key(old(store).records@[j]));
            }
            return HashStored {
                adapter_id: ctx.adapter_id,
                domain: ctx.domain,
                id: ctx.id,
                hash,
            };
        }
        i += 1;
    }
    proof {
        lemma_map_of_contains(store.records@, k);
    }
    let fresh = HashAccount { adapter_id: ctx.adapter_id, domain: ctx.domain, id: ctx.id, hash };
    store.records.push(fresh);
    proof {
        assert(store.records@.drop_last() =~= old(store).records@);
        assert(forall|j: int|
            0 <= j < old(store).records@.len() ==> #[trigger] store.records@[j] == old(
                store,
            ).records@[j]);
        assert(record_key(store.records@[store.records@.len() - 1]) == k);
    }
    HashStored { adapter_id: ctx.adapter_id, domain: ctx.domain, id: ctx.id, hash }
}

/// Law: storing twice for the same (adapter, domain, subject) key leaves the
/// store exactly as if only the second value had been written — no history of
/// the first value remains.
pub proof fn lemma_store_hash_overwrites(
    m: Map<(Seq<u8>, Seq<u8>, Seq<u8>), Seq<u8>>,
    k: (Seq<u8>, Seq<u8>, Seq<u8>),
    v1: Seq<u8>,
    v2: Seq<u8>,
)
    ensures
        m.insert(k, v1).insert(k, v2) == m.insert(k, v2),
{
    assert(m.insert(k, v1).insert(k, v2) =~= m.insert(k, v2));
}

} // verus!
