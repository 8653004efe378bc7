use hashi_core::message::{HelloWorldMessage, MessageError, HELLO_MESSAGE_MAX_LENGTH};

fn unique_key(seed: u8) -> [u8; 32] {
    let mut k = [0u8; 32];
    for (i, b) in k.iter_mut().enumerate() {
        *b = seed.wrapping_add(i as u8);
    }
    k
}

#[test]
fn test_message_alive() {
    let my_program_id = unique_key(7);
    let msg = HelloWorldMessage::Alive {
        program_id: my_program_id,
    };

    // Serialize program ID above.
    let encoded = msg.serialize().unwrap();

    assert_eq!(encoded.len(), 1 + 32);

    // Verify Payload ID.
    assert_eq!(encoded[0], 0);

    // Verify Program ID.
    let mut program_id_bytes = [0u8; 32];
    program_id_bytes.copy_from_slice(&encoded[1..33]);
    assert_eq!(program_id_bytes, my_program_id);

    // Now deserialize the encoded message.
    match HelloWorldMessage::deserialize(&encoded).unwrap() {
        HelloWorldMessage::Alive { program_id } => {
            assert_eq!(program_id, my_program_id)
        }
        _ => assert!(false, "incorrect deserialization"),
    }
}

#[test]
fn test_message_hello() {
    let raw_message = String::from("All your base are belong to us");
    let msg = HelloWorldMessage::Hello {
        message: raw_message.as_bytes().to_vec(),
    };

    // Serialize message above.
    let encoded = msg.serialize().unwrap();

    assert_eq!(encoded.len(), 1 + 2 + raw_message.len());

    // Verify Payload ID.
    assert_eq!(encoded[0], 1);

    // Verify message length.
    let mut message_len_bytes = [0u8; 2];
    message_len_bytes.copy_from_slice(&encoded[1..3]);
    assert_eq!(u16::from_be_bytes(message_len_bytes) as usize, raw_message.len());

    // Verify message.
    let from_utf8_result = std::str::from_utf8(&encoded[3..]);
    assert!(from_utf8_result.is_ok(), "from_utf8 resulted in an error");
    assert_eq!(from_utf8_result.unwrap(), raw_message);

    // Now deserialize the encoded message.
    match HelloWorldMessage::deserialize(&encoded).unwrap() {
        HelloWorldMessage::Hello { message } => {
            assert_eq!(message, raw_message.as_bytes())
        }
        _ => assert!(false, "incorrect deserialization"),
    }
}

#[test]
fn test_message_hello_too_large() {
    let n: usize = 513;
    let raw_message = {
        let mut out = Vec::with_capacity(n);
        for _ in 0..n {
            out.push(33u8)
        }
        String::from_utf8(out).unwrap()
    };
    let msg = HelloWorldMessage::Hello {
        message: raw_message.as_bytes().to_vec(),
    };

    // Attempt to serialize message above.
    match msg.serialize() {
        Err(e) => assert_eq!(e, MessageError::MessageTooLarge),
        _ => assert!(false, "not supposed to serialize"),
    };

    // Serialize manually and then attempt to deserialize.
    let mut encoded = Vec::new();
    encoded.push(1u8);
    encoded.extend_from_slice(&(raw_message.len() as u16).to_be_bytes());
    encoded.extend_from_slice(raw_message.as_bytes());

    assert_eq!(encoded.len(), 1 + 2 + raw_message.len());

    // Verify Payload ID.
    assert_eq!(encoded[0], 1);

    // Verify message length.
    let mut message_len_bytes = [0u8; 2];
    message_len_bytes.copy_from_slice(&encoded[1..3]);
    assert_eq!(u16::from_be_bytes(message_len_bytes) as usize, raw_message.len());

    match HelloWorldMessage::deserialize(&encoded) {
        Err(e) => assert_eq!(e, MessageError::MessageTooLarge),
        _ => assert!(false, "not supposed to deserialize"),
    };
}

#[test]
fn test_message_invalid_payload_id() {
    let data = vec![9u8, 0, 0, 0];
    match HelloWorldMessage::deserialize(&data) {
        Err(e) => assert_eq!(e, MessageError::InvalidPayloadId),
        _ => assert!(false, "not supposed to deserialize"),
    }
}

#[test]
fn test_message_truncated_inputs() {
    assert_eq!(
        HelloWorldMessage::deserialize(&[]).unwrap_err(),
        MessageError::UnexpectedEnd
    );
    // An alive payload cut short.
    assert_eq!(
        HelloWorldMessage::deserialize(&[0u8; 20]).unwrap_err(),
        MessageError::UnexpectedEnd
    );
    // A hello payload whose body ends early.
    let data = vec![1u8, 0, 5, b'a', b'b'];
    assert_eq!(
        HelloWorldMessage::deserialize(&data).unwrap_err(),
        MessageError::UnexpectedEnd
    );
}

#[test]
fn test_message_hello_max_length_round_trip() {
    let payload = vec![42u8; HELLO_MESSAGE_MAX_LENGTH];
    let msg = HelloWorldMessage::Hello {
        message: payload.clone(),
    };
    let encoded = msg.serialize().unwrap();
    assert_eq!(encoded.len(), 3 + HELLO_MESSAGE_MAX_LENGTH);
    match HelloWorldMessage::deserialize(&encoded).unwrap() {
        HelloWorldMessage::Hello { message } => assert_eq!(message, payload),
        _ => assert!(false, "incorrect deserialization"),
    }
}
