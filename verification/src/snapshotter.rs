//! The snapshotter registry: an append-only list of watched accounts, and the
//! incremental batched root calculation over their snapshots. Batches must be
//! processed strictly in order; the last batch of a pass finalizes the root
//! and bumps the nonce.

use vstd::prelude::*;

use vstd::bytes::{spec_u64_to_le_bytes, u64_to_le_bytes};

use crate::digest::{bytes32_eq, zero_bytes32, zero_digest};
use crate::hashing::hash_of;
use crate::hashing::sha256_digest;
use crate::merkle::{chained_root, digests_of, fragment_of, BatchMerkleTree};

verus! {

/// How many accounts are processed per batch during root calculation.
pub const BATCH_SIZE: usize = 10;

#[derive(Clone, Copy, Debug, PartialEq, Eq, Structural)]
pub enum ErrorCode {
    /// The account is already subscribed.
    AccountAlreadySubscribed,
    /// The snapshot list has the wrong length for this batch.
    InvalidRemainingAccountsLength,
    /// A snapshot does not correspond to the subscribed account at its slot.
    InvalidSubscribedAccount,
    /// The batch index is not the expected one.
    InvalidBatch,
}

/// One watched account's state, supplied by the caller per batch; the
/// accumulator treats it as opaque input to hashing.
#[derive(Clone, Debug)]
pub struct AccountSnapshot {
    pub key: [u8; 32],
    pub lamports: u64,
    pub data: Vec<u8>,
    pub owner: [u8; 32],
    pub rent_epoch: u64,
}

/// The bytes an account snapshot is hashed over:
/// key ‖ lamports_le ‖ data ‖ owner ‖ rent_epoch_le.
pub open spec fn snapshot_bytes(s: AccountSnapshot) -> Seq<u8> {
    s.key@ + spec_u64_to_le_bytes(s.lamports) + s.data@ + s.owner@ + spec_u64_to_le_bytes(
        s.rent_epoch,
    )
}

/// The leaf digest of one account snapshot.
pub open spec fn leaf_digest(s: AccountSnapshot) -> Seq<u8> {
    hash_of(snapshot_bytes(s))
}

/// The leaf digests of a batch of snapshots, in order.
pub open spec fn leaf_digests(snaps: Seq<AccountSnapshot>) -> Seq<Seq<u8>> {
    snaps.map_values(|s: AccountSnapshot| leaf_digest(s))
}

/// Digest one account's state.
pub fn account_hasher(
    pubkey: &[u8; 32],
    lamports: u64,
    data: &Vec<u8>,
    owner: &[u8; 32],
    rent_epoch: u64,
) -> (r: [u8; 32])
    ensures
        r@ == hash_of(
            pubkey@ + spec_u64_to_le_bytes(lamports) + data@ + owner@ + spec_u64_to_le_bytes(
                rent_epoch,
            ),
        ),
{
    let mut buf: Vec<u8> = Vec::new();
    buf.extend_from_slice(pubkey.as_slice());
    let lamports_le = u64_to_le_bytes(lamports);
    buf.extend_from_slice(lamports_le.as_slice());
    buf.extend_from_slice(data.as_slice());
    buf.extend_from_slice(owner.as_slice());
    let rent_epoch_le = u64_to_le_bytes(rent_epoch);
    buf.extend_from_slice(rent_epoch_le.as_slice());
    proof {
        assert(buf@ =~= pubkey@ + spec_u64_to_le_bytes(lamports) + data@ + owner@
            + spec_u64_to_le_bytes(rent_epoch));
    }
    sha256_digest(&buf)
}

/// The registry state for one deployment domain.
pub struct Config {
    /// Accounts subscribed for digestion; insertion-ordered and append-only,
    /// the index position defines batch membership.
    pub subscribed_accounts: Vec<[u8; 32]>,
    /// The running accumulated root; starts all-zero.
    pub root: [u8; 32],
    /// True only when no partial pass is in progress.
    pub root_finalized: bool,
    /// The only batch index currently acceptable.
    pub expected_batch: u64,
    /// Count of fully completed passes.
    pub nonce: u64,
}

/// A freshly initialized registry: all-zero root, nothing subscribed, batch
/// cursor and nonce at zero.
pub fn initialize() -> (c: Config)
    ensures
        c.subscribed_accounts@ == Seq::<[u8; 32]>::empty(),
        c.root@ == zero_digest(),
        !c.root_finalized,
        c.expected_batch == 0,
        c.nonce == 0,
{
    Config {
        subscribed_accounts: Vec::new(),
        root: zero_bytes32(),
        root_finalized: false,
        expected_batch: 0,
        nonce: 0,
    }
}

/// Whether the list holds an entry with the given key bytes.
pub open spec fn has_key(s: Seq<[u8; 32]>, key: [u8; 32]) -> bool {
    exists|i: int| 0 <= i < s.len() && s[i]@ == key@
}

/// What one subscribe call leaves the list as: unchanged on a duplicate,
/// appended otherwise.
pub open spec fn spec_subscribe(s: Seq<[u8; 32]>, key: [u8; 32]) -> Seq<[u8; 32]> {
    if has_key(s, key) {
        s
    } else {
        s.push(key)
    }
}

fn contains_key(v: &Vec<[u8; 32]>, key: &[u8; 32]) -> (r: bool)
    ensures
        r == has_key(v@, *key),
{
    let mut i: usize = 0;
    while i < v.len()
        invariant
            i <= v@.len(),
            forall|j: int| 0 <= j < i ==> v@[j]@ != key@,
        decreases v@.len() - i,
    {
        if bytes32_eq(&v[i], key) {
            return true;
        }
        i += 1;
    }
    false
}

/// Append an account to the subscriber list, unless it is already there; a
/// duplicate fails with `AccountAlreadySubscribed` and changes nothing.
pub fn subscribe(config: &mut Config, account_to_subscribe: [u8; 32]) -> (r: Result<
    (),
    ErrorCode,
>)
    ensures
        final(config).root == old(config).root,
        final(config).root_finalized == old(config).root_finalized,
        final(config).expected_batch == old(config).expected_batch,
        final(config).nonce == old(config).nonce,
        final(config).subscribed_accounts@ == spec_subscribe(
            old(config).subscribed_accounts@,
            account_to_subscribe,
        ),
        match r {
            Ok(()) => !has_key(old(config).subscribed_accounts@, account_to_subscribe)
                && final(config).subscribed_accounts@ == old(config).subscribed_accounts@.push(
                account_to_subscribe,
            ),
            Err(e) => e == ErrorCode::AccountAlreadySubscribed && has_key(
                old(config).subscribed_accounts@,
                account_to_subscribe,
            ) && final(config).subscribed_accounts@ == old(config).subscribed_accounts@,
        },
{
    if contains_key(&config.subscribed_accounts, &account_to_subscribe) {
        return Err(ErrorCode::AccountAlreadySubscribed);
    }
    config.subscribed_accounts.push(account_to_subscribe);
    Ok(())
}

/// Whether `batch` is the last batch for `total` subscribed accounts.
pub open spec fn spec_is_last_batch(total: nat, batch: u64) -> bool {
    total as int / (BATCH_SIZE as int) == batch as int
}

/// The length the snapshot list must have for this batch: exactly
/// `BATCH_SIZE`, except the last batch, which may be shorter but not empty.
pub open spec fn batch_length_ok(total: nat, batch: u64, n: nat) -> bool {
    if spec_is_last_batch(total, batch) {
        1 <= n <= BATCH_SIZE
    } else {
        n == BATCH_SIZE
    }
}

/// Whether the snapshot at position `i` of this batch is the subscribed
/// account at the corresponding registry slot.
pub open spec fn snapshot_slot_ok(
    subs: Seq<[u8; 32]>,
    batch: u64,
    snaps: Seq<AccountSnapshot>,
    i: int,
) -> bool {
    &&& batch as int * (BATCH_SIZE as int) + i < subs.len()
    &&& subs[batch as int * (BATCH_SIZE as int) + i]@ == snaps[i].key@
}

/// Whether each snapshot is the subscribed account at its slot of this batch,
/// in registry order.
pub open spec fn snapshots_match(
    subs: Seq<[u8; 32]>,
    batch: u64,
    snaps: Seq<AccountSnapshot>,
) -> bool {
    forall|i: int| 0 <= i < snaps.len() ==> #[trigger] snapshot_slot_ok(subs, batch, snaps, i)
}

/// One successful `calculate_root` step: the validations that admitted it and
/// the state transition it applied.
pub open spec fn calc_ok_step(
    pre: Config,
    batch: u64,
    snaps: Seq<AccountSnapshot>,
    post: Config,
) -> bool {
    &&& batch == pre.expected_batch
    &&& batch_length_ok(pre.subscribed_accounts@.len(), batch, snaps.len())
    &&& snapshots_match(pre.subscribed_accounts@, batch, snaps)
    &&& post.subscribed_accounts@ == pre.subscribed_accounts@
    &&& post.root@ == chained_root(pre.root@, fragment_of(leaf_digests(snaps)))
    &&& if spec_is_last_batch(pre.subscribed_accounts@.len(), batch) {
        post.root_finalized && post.expected_batch == 0 && post.nonce == pre.nonce + 1
    } else {
        !post.root_finalized && post.expected_batch == batch + 1 && post.nonce == pre.nonce
    }
}

/// The error a `calculate_root` call returns, if any, checked in this order:
/// batch sequencing, snapshot-list length, snapshot identity.
pub open spec fn spec_calculate_root_error(
    pre: Config,
    batch: u64,
    snaps: Seq<AccountSnapshot>,
) -> Option<ErrorCode> {
    if batch != pre.expected_batch {
        Some(ErrorCode::InvalidBatch)
    } else if !batch_length_ok(pre.subscribed_accounts@.len(), batch, snaps.len()) {
        Some(ErrorCode::InvalidRemainingAccountsLength)
    } else if !snapshots_match(pre.subscribed_accounts@, batch, snaps) {
        Some(ErrorCode::InvalidSubscribedAccount)
    } else {
        None
    }
}

/// Process one batch of snapshots: validate the batch index, the snapshot
/// count and each snapshot's identity, then chain the batch's fragment into
/// the running root and advance (or finalize) the batch cursor. Any
/// validation failure returns its error and leaves the registry unchanged.
#[verifier::loop_isolation(false)]
pub fn calculate_root(config: &mut Config, batch: u64, snapshots: &Vec<AccountSnapshot>) -> (r:
    Result<(), ErrorCode>)
    requires
        old(config).expected_batch < u64::MAX,
        old(config).nonce < u64::MAX,
    ensures
        match r {
            Ok(()) => spec_calculate_root_error(*old(config), batch, snapshots@) is None
                && calc_ok_step(*old(config), batch, snapshots@, *final(config)),
            Err(e) => Some(e) == spec_calculate_root_error(*old(config), batch, snapshots@)
                && *final(config) == *old(config),
        },
{
    if batch != config.expected_batch {
        return Err(ErrorCode::InvalidBatch);
    }
    let total = config.subscribed_accounts.len();
    let is_last_batch = (total / BATCH_SIZE) as u64 == batch;
    let n = snapshots.len();
    if is_last_batch {
        if n > BATCH_SIZE || n == 0 {
            return Err(ErrorCode::InvalidRemainingAccountsLength);
        }
    } else {
        if n != BATCH_SIZE {
            return Err(ErrorCode::InvalidRemainingAccountsLength);
        }
    }

    let mut leaves: Vec<[u8; 32]> = Vec::new();
    let mut i: usize = 0;
    while i < n
        invariant
            i <= n,
            leaves@.len() == i,
            forall|k: int| 0 <= k < i ==> leaves@[k]@ == leaf_digest(#[trigger] snapshots@[k]),
            forall|k: int|
                0 <= k < i ==> #[trigger] snapshot_slot_ok(
                    config.subscribed_accounts@,
                    batch,
                    snapshots@,
                    k,
                ),
        decreases n - i,
    {
        let idx128: u128 = (batch as u128) * (BATCH_SIZE as u128) + (i as u128);
        if idx128 >= total as u128 {
            proof {
                assert(!snapshot_slot_ok(config.subscribed_accounts@, batch, snapshots@, i as int));
            }
            return Err(ErrorCode::InvalidSubscribedAccount);
        }
        let idx = idx128 as usize;
        let snap = &snapshots[i];
        if !bytes32_eq(&snap.key, &config.subscribed_accounts[idx]) {
            proof {
                assert(!snapshot_slot_ok(config.subscribed_accounts@, batch, snapshots@, i as int));
            }
            return Err(ErrorCode::InvalidSubscribedAccount);
        }
        let leaf = account_hasher(&snap.key, snap.lamports, &snap.data, &snap.owner, snap.rent_epoch);
        leaves.push(leaf);
        i += 1;
    }
    proof {
        assert(digests_of(leaves@) =~= leaf_digests(snapshots@));
    }

    let mut tree = BatchMerkleTree { root: config.root };
    tree.push_batch(leaves);
    config.root = tree.root;

    if is_last_batch {
        config.root_finalized = true;
        config.expected_batch = 0;
        config.nonce = config.nonce + 1;
    } else {
        config.root_finalized = false;
        config.expected_batch = config.expected_batch + 1;
    }
    Ok(())
}

/// The list a sequence of subscribe calls leaves behind, applied in order.
pub open spec fn apply_subscribes(s: Seq<[u8; 32]>, reqs: Seq<[u8; 32]>) -> Seq<[u8; 32]>
    decreases reqs.len(),
{
    if reqs.len() == 0 {
        s
    } else {
        apply_subscribes(spec_subscribe(s, reqs[0]), reqs.drop_first())
    }
}

/// Of a sequence of subscribe calls against a list starting as `s`, the
/// entities that are accepted, in call order.
pub open spec fn accepted_subscribes(s: Seq<[u8; 32]>, reqs: Seq<[u8; 32]>) -> Seq<[u8; 32]>
    decreases reqs.len(),
{
    if reqs.len() == 0 {
        Seq::empty()
    } else if has_key(s, reqs[0]) {
        accepted_subscribes(s, reqs.drop_first())
    } else {
        seq![reqs[0]] + accepted_subscribes(s.push(reqs[0]), reqs.drop_first())
    }
}

/// Law: over any sequence of subscribe calls, the subscriber list is exactly
/// the starting list followed by the accepted entities in call order; the
/// rejected duplicates leave no trace.
pub proof fn lemma_subscribe_sequence(s: Seq<[u8; 32]>, reqs: Seq<[u8; 32]>)
    ensures
        apply_subscribes(s, reqs) == s + accepted_subscribes(s, reqs),
    decreases reqs.len(),
{
    if reqs.len() == 0 {
        assert(s + accepted_subscribes(s, reqs) =~= s);
    } else {
        let r0 = reqs[0];
        let rest = reqs.drop_first();
        if has_key(s, r0) {
            lemma_subscribe_sequence(s, rest);
        } else {
            lemma_subscribe_sequence(s.push(r0), rest);
            assert(s.push(r0) =~= s + seq![r0]);
            assert((s + seq![r0]) + accepted_subscribes(s.push(r0), rest) =~= s + (seq![r0]
                + accepted_subscribes(s.push(r0), rest)));
        }
    }
}

/// The fragments of a sequence of batches, in order.
pub open spec fn fragments_of(batches: Seq<Seq<AccountSnapshot>>) -> Seq<Seq<u8>> {
    batches.map_values(|b: Seq<AccountSnapshot>| fragment_of(leaf_digests(b)))
}

/// Folding a sequence of fragments into a running root, first to last.
pub open spec fn chain_all(r0: Seq<u8>, frags: Seq<Seq<u8>>) -> Seq<u8>
    decreases frags.len(),
{
    if frags.len() == 0 {
        r0
    } else {
        chain_all(chained_root(r0, frags[0]), frags.drop_first())
    }
}

/// The root a full in-order pass over `batches` produces from a fresh
/// accumulator: a function of the snapshots alone.
pub open spec fn pass_root(batches: Seq<Seq<AccountSnapshot>>) -> Seq<u8> {
    chain_all(zero_digest(), fragments_of(batches))
}

proof fn lemma_chain_all_snoc(r0: Seq<u8>, frags: Seq<Seq<u8>>, j: int)
    requires
        0 < j <= frags.len(),
    ensures
        chain_all(r0, frags.take(j)) == chained_root(chain_all(r0, frags.take(j - 1)), frags[j - 1]),
    decreases j,
{
    if j == 1 {
        let empty = Seq::<Seq<u8>>::empty();
        assert(frags.take(0) =~= empty);
        assert(chain_all(r0, empty) == r0);
        assert(frags.take(1)[0] == frags[0]);
        assert(frags.take(1).drop_first() =~= empty);
        assert(chain_all(r0, frags.take(1)) == chain_all(chained_root(r0, frags[0]), empty));
    } else {
        let r1 = chained_root(r0, frags[0]);
        let rest = frags.drop_first();
        lemma_chain_all_snoc(r1, rest, j - 1);
        assert(frags.take(j)[0] == frags[0]);
        assert(frags.take(j).drop_first() =~= rest.take(j - 1));
        assert(chain_all(r0, frags.take(j)) == chain_all(r1, rest.take(j - 1)));
        assert(frags.take(j - 1)[0] == frags[0]);
        assert(frags.take(j - 1).drop_first() =~= rest.take(j - 2));
        assert(chain_all(r0, frags.take(j - 1)) == chain_all(r1, rest.take(j - 2)));
        assert(rest[j - 2] == frags[j - 1]);
    }
}

proof fn lemma_pass_prefix(states: Seq<Config>, batches: Seq<Seq<AccountSnapshot>>, j: int)
    requires
        states.len() == batches.len() + 1,
        batches.len() <= u64::MAX,
        states[0].expected_batch == 0,
        forall|i: int|
            0 <= i < batches.len() ==> #[trigger] calc_ok_step(
                states[i],
                i as u64,
                batches[i],
                states[i + 1],
            ),
        0 <= j < batches.len(),
    ensures
        states[j].root@ == chain_all(states[0].root@, fragments_of(batches).take(j)),
        states[j].subscribed_accounts@ == states[0].subscribed_accounts@,
        states[j].expected_batch == j,
        states[j].nonce == states[0].nonce,
    decreases j,
{
    if j == 0 {
        assert(fragments_of(batches).take(0) =~= Seq::<Seq<u8>>::empty());
        assert(chain_all(states[0].root@, Seq::<Seq<u8>>::empty()) == states[0].root@);
    } else {
        let jm1 = j - 1;
        lemma_pass_prefix(states, batches, jm1);
        assert(calc_ok_step(states[jm1], jm1 as u64, batches[jm1], states[jm1 + 1]));
        assert(calc_ok_step(states[j], j as u64, batches[j], states[j + 1]));
        // step j exists, so step j - 1 cannot have been a finalizing one:
        // finalizing would reset the cursor to 0, and batch j == cursor with
        // j >= 1 rules that out.
        assert(!spec_is_last_batch(states[jm1].subscribed_accounts@.len(), jm1 as u64));
        assert(fragments_of(batches)[jm1] == fragment_of(leaf_digests(batches[jm1])));
        lemma_chain_all_snoc(states[0].root@, fragments_of(batches), j);
    }
}

/// Law: processing batches 0, 1, ..., last strictly in order from a freshly
/// initialized registry leaves the root equal to `pass_root(batches)` — a
/// deterministic, order-sensitive function of the snapshots alone, so
/// re-running the identical snapshots from a fresh registry reproduces the
/// identical root — finalizes the root, resets the batch cursor, and
/// increments the nonce by exactly one.
pub proof fn lemma_full_pass(states: Seq<Config>, batches: Seq<Seq<AccountSnapshot>>)
    requires
        1 <= batches.len() <= u64::MAX,
        states.len() == batches.len() + 1,
        states[0].root@ == zero_digest(),
        states[0].expected_batch == 0,
        forall|i: int|
            0 <= i < batches.len() ==> #[trigger] calc_ok_step(
                states[i],
                i as u64,
                batches[i],
                states[i + 1],
            ),
        spec_is_last_batch(
            states[batches.len() - 1].subscribed_accounts@.len(),
            (batches.len() - 1) as u64,
        ),
    ensures
        states[batches.len() as int].root@ == pass_root(batches),
        states[batches.len() as int].root_finalized,
        states[batches.len() as int].expected_batch == 0,
        states[batches.len() as int].nonce == states[0].nonce + 1,
{
    let k = batches.len() as int;
    let km1 = k - 1;
    lemma_pass_prefix(states, batches, km1);
    assert(calc_ok_step(states[km1], km1 as u64, batches[km1], states[km1 + 1]));
    assert(fragments_of(batches)[km1] == fragment_of(leaf_digests(batches[km1])));
    lemma_chain_all_snoc(states[0].root@, fragments_of(batches), k);
    assert(fragments_of(batches).take(k) =~= fragments_of(batches));
}

} // verus!
