use alloy_primitives::U256;
use alloy_sol_types::{sol_data, SolType};
use hashi_core::reporter::{dispatch_root, u64_to_u8_32, ErrorCode, Message};
use hashi_core::snapshotter::{calculate_root, initialize, subscribe, AccountSnapshot};

fn word_of_u64(n: u64) -> [u8; 32] {
    let mut w = [0u8; 32];
    w[24..].copy_from_slice(&n.to_be_bytes());
    w
}

fn sample_root() -> [u8; 32] {
    let mut r = [0u8; 32];
    for (i, b) in r.iter_mut().enumerate() {
        *b = (i as u8).wrapping_mul(7);
    }
    r
}

#[test]
fn u64_to_u8_32_puts_big_endian_bytes_last() {
    let got = u64_to_u8_32(0x0102_0304_0506_0708);
    let mut expected = [0u8; 32];
    expected[24..].copy_from_slice(&[1, 2, 3, 4, 5, 6, 7, 8]);
    assert_eq!(got, expected);
    assert_eq!(u64_to_u8_32(0), [0u8; 32]);
    assert_eq!(u64_to_u8_32(u64::MAX)[23], 0);
    assert_eq!(u64_to_u8_32(u64::MAX)[24..], [0xff; 8]);
}

#[test]
fn message_payload_is_the_documented_abi_encoding() {
    let nonce: u64 = 3;
    let root = sample_root();
    let payload = Message::from((nonce, root)).serialize();

    // Two offset words, then each array as a length word and its elements.
    let mut expected: Vec<u8> = Vec::new();
    expected.extend_from_slice(&word_of_u64(64));
    expected.extend_from_slice(&word_of_u64(128));
    expected.extend_from_slice(&word_of_u64(1));
    expected.extend_from_slice(&word_of_u64(nonce));
    expected.extend_from_slice(&word_of_u64(1));
    expected.extend_from_slice(&root);
    assert_eq!(payload.len(), 192);
    assert_eq!(payload, expected);

    // The same pair encoded directly by the encoder the library relies on.
    let direct = <(
        sol_data::Array<sol_data::Uint<256>>,
        sol_data::Array<sol_data::FixedBytes<32>>,
    )>::abi_encode_params(&(vec![U256::from(nonce)], vec![root]));
    assert_eq!(payload, direct);
}

#[test]
fn longer_messages_encode_every_element() {
    let m = Message {
        ids: vec![1, 2, 3],
        hashes: vec![sample_root(), [9u8; 32]],
    };
    let payload = m.serialize();
    let mut expected: Vec<u8> = Vec::new();
    expected.extend_from_slice(&word_of_u64(64));
    expected.extend_from_slice(&word_of_u64(96 + 32 * 3));
    expected.extend_from_slice(&word_of_u64(3));
    expected.extend_from_slice(&word_of_u64(1));
    expected.extend_from_slice(&word_of_u64(2));
    expected.extend_from_slice(&word_of_u64(3));
    expected.extend_from_slice(&word_of_u64(2));
    expected.extend_from_slice(&sample_root());
    expected.extend_from_slice(&[9u8; 32]);
    assert_eq!(payload, expected);
}

#[test]
fn unfinalized_root_is_not_dispatched() {
    let config = initialize();
    assert_eq!(
        dispatch_root(&config).unwrap_err(),
        ErrorCode::RootNotFinalized
    );
}

#[test]
fn finalized_root_is_dispatched_with_its_nonce() {
    let mut config = initialize();
    let key = [5u8; 32];
    subscribe(&mut config, key).unwrap();
    let snaps = vec![AccountSnapshot {
        key,
        lamports: 77,
        data: vec![1, 2, 3],
        owner: [6u8; 32],
        rent_epoch: 1,
    }];
    calculate_root(&mut config, 0, &snaps).unwrap();
    let m = dispatch_root(&config).unwrap();
    assert_eq!(m.ids, vec![1u64]);
    assert_eq!(m.hashes, vec![config.root]);
}
