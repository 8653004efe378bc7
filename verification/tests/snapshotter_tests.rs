use hashi_core::snapshotter::{
    account_hasher, calculate_root, initialize, subscribe, AccountSnapshot, ErrorCode,
};
use solana_program::hash::hashv;

fn key(seed: u8) -> [u8; 32] {
    let mut k = [0u8; 32];
    k[0] = seed;
    k[31] = seed.wrapping_mul(3);
    k
}

fn snapshot(seed: u8) -> AccountSnapshot {
    AccountSnapshot {
        key: key(seed),
        lamports: seed as u64 * 1000,
        data: vec![seed, seed.wrapping_add(1), seed.wrapping_add(2)],
        owner: key(seed.wrapping_add(100)),
        rent_epoch: seed as u64,
    }
}

fn expected_leaf(s: &AccountSnapshot) -> [u8; 32] {
    hashv(&[
        &s.key,
        &s.lamports.to_le_bytes(),
        &s.data,
        &s.owner,
        &s.rent_epoch.to_le_bytes(),
    ])
    .to_bytes()
}

fn expected_fragment(mut layer: Vec<[u8; 32]>) -> [u8; 32] {
    while layer.len() > 1 {
        let mut next = Vec::new();
        let mut i = 0;
        while i < layer.len() {
            if i + 1 < layer.len() {
                next.push(hashv(&[&layer[i], &layer[i + 1]]).to_bytes());
                i += 2;
            } else {
                next.push(layer[i]);
                i += 1;
            }
        }
        layer = next;
    }
    layer[0]
}

fn expected_chain(prev: [u8; 32], fragment: [u8; 32]) -> [u8; 32] {
    if prev == [0u8; 32] {
        fragment
    } else {
        hashv(&[&prev, &fragment]).to_bytes()
    }
}

#[test]
fn subscribe_records_accepted_entities_in_order() {
    let mut config = initialize();
    assert!(subscribe(&mut config, key(1)).is_ok());
    assert!(subscribe(&mut config, key(2)).is_ok());
    assert!(subscribe(&mut config, key(3)).is_ok());
    // A duplicate fails and leaves the list untouched.
    assert_eq!(
        subscribe(&mut config, key(2)).unwrap_err(),
        ErrorCode::AccountAlreadySubscribed
    );
    assert_eq!(config.subscribed_accounts, vec![key(1), key(2), key(3)]);
    assert_eq!(config.expected_batch, 0);
    assert_eq!(config.nonce, 0);
}

#[test]
fn account_hasher_matches_platform_hash() {
    let s = snapshot(5);
    let got = account_hasher(&s.key, s.lamports, &s.data, &s.owner, s.rent_epoch);
    assert_eq!(got, expected_leaf(&s));
    // The digest is not any of the inputs handed to the hash.
    assert_ne!(got, s.key);
    assert_ne!(got, s.owner);
}

#[test]
fn single_leaf_batch_root_is_the_leaf_digest() {
    let mut config = initialize();
    subscribe(&mut config, key(1)).unwrap();
    let snaps = vec![snapshot(1)];
    calculate_root(&mut config, 0, &snaps).unwrap();
    // One leaf: the fragment is the leaf itself, and the first fragment
    // becomes the root unchanged.
    assert_eq!(config.root, expected_leaf(&snaps[0]));
    assert!(config.root_finalized);
    assert_eq!(config.expected_batch, 0);
    assert_eq!(config.nonce, 1);
}

#[test]
fn wrong_batch_index_fails_and_mutates_nothing() {
    let mut config = initialize();
    subscribe(&mut config, key(1)).unwrap();
    let snaps = vec![snapshot(1)];
    let before_root = config.root;
    for wrong in [1u64, 2, 7, u64::MAX - 1] {
        assert_eq!(
            calculate_root(&mut config, wrong, &snaps).unwrap_err(),
            ErrorCode::InvalidBatch
        );
        assert_eq!(config.root, before_root);
        assert_eq!(config.expected_batch, 0);
        assert_eq!(config.nonce, 0);
        assert!(!config.root_finalized);
    }
}

#[test]
fn wrong_snapshot_identity_fails_and_mutates_nothing() {
    let mut config = initialize();
    for i in 1..=2u8 {
        subscribe(&mut config, key(i)).unwrap();
    }
    // Snapshots out of registry order.
    let snaps = vec![snapshot(2), snapshot(1)];
    assert_eq!(
        calculate_root(&mut config, 0, &snaps).unwrap_err(),
        ErrorCode::InvalidSubscribedAccount
    );
    assert_eq!(config.root, [0u8; 32]);
    assert_eq!(config.expected_batch, 0);
    assert_eq!(config.nonce, 0);
    // Too many snapshots for the registry also fails as an identity error.
    let snaps = vec![snapshot(1), snapshot(2), snapshot(3)];
    assert_eq!(
        calculate_root(&mut config, 0, &snaps).unwrap_err(),
        ErrorCode::InvalidSubscribedAccount
    );
    assert_eq!(config.nonce, 0);
}

#[test]
fn twenty_five_entities_pass_in_three_batches() {
    let mut config = initialize();
    for i in 0..25u8 {
        subscribe(&mut config, key(i)).unwrap();
    }
    let all: Vec<AccountSnapshot> = (0..25u8).map(snapshot).collect();

    // Batch 0 must carry exactly ten snapshots.
    let short: Vec<AccountSnapshot> = (0..5u8).map(snapshot).collect();
    assert_eq!(
        calculate_root(&mut config, 0, &short).unwrap_err(),
        ErrorCode::InvalidRemainingAccountsLength
    );

    let batch0: Vec<AccountSnapshot> = (0..10u8).map(snapshot).collect();
    calculate_root(&mut config, 0, &batch0).unwrap();
    assert!(!config.root_finalized);
    assert_eq!(config.expected_batch, 1);
    assert_eq!(config.nonce, 0);

    // Batch 1 must also carry exactly ten.
    let eleven: Vec<AccountSnapshot> = (10..21u8).map(snapshot).collect();
    assert_eq!(
        calculate_root(&mut config, 1, &eleven).unwrap_err(),
        ErrorCode::InvalidRemainingAccountsLength
    );

    let batch1: Vec<AccountSnapshot> = (10..20u8).map(snapshot).collect();
    calculate_root(&mut config, 1, &batch1).unwrap();
    assert!(!config.root_finalized);
    assert_eq!(config.expected_batch, 2);

    // The last batch carries the remaining five, capped at the batch size.
    let batch2: Vec<AccountSnapshot> = (20..25u8).map(snapshot).collect();
    calculate_root(&mut config, 2, &batch2).unwrap();
    assert!(config.root_finalized);
    assert_eq!(config.expected_batch, 0);
    assert_eq!(config.nonce, 1);

    // The final root is the chained reduction of the three fragments.
    let mut expected = [0u8; 32];
    for chunk in all.chunks(10) {
        let leaves: Vec<[u8; 32]> = chunk.iter().map(expected_leaf).collect();
        expected = expected_chain(expected, expected_fragment(leaves));
    }
    assert_eq!(config.root, expected);
}

#[test]
fn replaying_identical_snapshots_reproduces_the_root() {
    let run = || {
        let mut config = initialize();
        for i in 0..25u8 {
            subscribe(&mut config, key(i)).unwrap();
        }
        for (b, chunk) in (0..25u8)
            .map(snapshot)
            .collect::<Vec<_>>()
            .chunks(10)
            .enumerate()
        {
            calculate_root(&mut config, b as u64, &chunk.to_vec()).unwrap();
        }
        (config.root, config.nonce, config.root_finalized)
    };
    let (root1, nonce1, fin1) = run();
    let (root2, nonce2, fin2) = run();
    assert_eq!(root1, root2);
    assert_eq!(nonce1, 1);
    assert_eq!(nonce2, 1);
    assert!(fin1 && fin2);
}

#[test]
fn subscription_mid_pass_moves_the_last_batch_boundary() {
    let mut config = initialize();
    for i in 0..10u8 {
        subscribe(&mut config, key(i)).unwrap();
    }
    // With exactly ten subscribers, batch 0 is not the last batch: the last
    // batch index is 10 / 10 = 1.
    let batch0: Vec<AccountSnapshot> = (0..10u8).map(snapshot).collect();
    calculate_root(&mut config, 0, &batch0).unwrap();
    assert!(!config.root_finalized);
    assert_eq!(config.expected_batch, 1);

    // A subscription arriving mid-pass is seen by the pass already underway:
    // batch 1 now carries the new entity and finalizes.
    subscribe(&mut config, key(10)).unwrap();
    let batch1 = vec![snapshot(10)];
    calculate_root(&mut config, 1, &batch1).unwrap();
    assert!(config.root_finalized);
    assert_eq!(config.nonce, 1);
}

#[test]
fn empty_snapshot_list_is_refused() {
    let mut config = initialize();
    for i in 0..10u8 {
        subscribe(&mut config, key(i)).unwrap();
    }
    let batch0: Vec<AccountSnapshot> = (0..10u8).map(snapshot).collect();
    calculate_root(&mut config, 0, &batch0).unwrap();
    // Batch 1 is the last batch of this pass, but with no subscriber left
    // past slot ten, no snapshot list can legally fill it: an empty list is
    // refused as a length error rather than accepted.
    let empty: Vec<AccountSnapshot> = Vec::new();
    assert_eq!(
        calculate_root(&mut config, 1, &empty).unwrap_err(),
        ErrorCode::InvalidRemainingAccountsLength
    );
    assert!(!config.root_finalized);
}
