//! The relay's wire codec for its two payloads: an aliveness announcement
//! carrying a program id, and a hello payload carrying a short byte string.
//! Payload ids are one byte; a hello carries a big-endian two-byte length.

use vstd::prelude::*;

verus! {

/// The longest hello payload the codec accepts.
pub const HELLO_MESSAGE_MAX_LENGTH: usize = 512;

pub const PAYLOAD_ID_ALIVE: u8 = 0;

pub const PAYLOAD_ID_HELLO: u8 = 1;

/// The two payloads the codec understands.
#[derive(Clone, Debug)]
pub enum HelloWorldMessage {
    Alive { program_id: [u8; 32] },
    Hello { message: Vec<u8> },
}

#[derive(Clone, Copy, Debug, PartialEq, Eq, Structural)]
pub enum MessageError {
    /// A hello payload longer than the maximum, on either path.
    MessageTooLarge,
    /// An unknown payload id byte.
    InvalidPayloadId,
    /// The input ends before the encoding is complete.
    UnexpectedEnd,
}

/// The two big-endian bytes of a 16-bit length.
pub open spec fn spec_u16_be(n: u16) -> Seq<u8> {
    seq![((n >> 8) & 0xff) as u8, (n & 0xff) as u8]
}

/// Whether a message can be encoded: a hello payload must fit the maximum.
pub open spec fn wf_message(m: HelloWorldMessage) -> bool {
    match m {
        HelloWorldMessage::Alive { .. } => true,
        HelloWorldMessage::Hello { message } => message@.len() <= HELLO_MESSAGE_MAX_LENGTH,
    }
}

/// The encoding of a well-formed message.
pub open spec fn spec_serialize(m: HelloWorldMessage) -> Seq<u8> {
    match m {
        HelloWorldMessage::Alive { program_id } => seq![PAYLOAD_ID_ALIVE] + program_id@,
        HelloWorldMessage::Hello { message } => seq![PAYLOAD_ID_HELLO] + spec_u16_be(
            message@.len() as u16,
        ) + message@,
    }
}

/// A message's content as (payload id, payload bytes).
pub open spec fn message_repr(m: HelloWorldMessage) -> (u8, Seq<u8>) {
    match m {
        HelloWorldMessage::Alive { program_id } => (PAYLOAD_ID_ALIVE, program_id@),
        HelloWorldMessage::Hello { message } => (PAYLOAD_ID_HELLO, message@),
    }
}

/// What parsing a byte sequence yields: the payload id and payload bytes of
/// the message it opens with, or the first error met — an unknown id, a
/// length above the maximum, or an input too short. Trailing bytes are
/// ignored.
pub open spec fn spec_deserialize(data: Seq<u8>) -> Result<(u8, Seq<u8>), MessageError> {
    if data.len() < 1 {
        Err(MessageError::UnexpectedEnd)
    } else if data[0] == PAYLOAD_ID_ALIVE {
        if data.len() < 33 {
            Err(MessageError::UnexpectedEnd)
        } else {
            Ok((PAYLOAD_ID_ALIVE, data.subrange(1, 33)))
        }
    } else if data[0] == PAYLOAD_ID_HELLO {
        if data.len() < 3 {
            Err(MessageError::UnexpectedEnd)
        } else if (data[1] as int) * 256 + (data[2] as int) > HELLO_MESSAGE_MAX_LENGTH {
            Err(MessageError::MessageTooLarge)
        } else if data.len() < 3 + (data[1] as int) * 256 + (data[2] as int) {
            Err(MessageError::UnexpectedEnd)
        } else {
            Ok((PAYLOAD_ID_HELLO, data.subrange(3, 3 + (data[1] as int) * 256 + (data[2] as int))))
        }
    } else {
        Err(MessageError::InvalidPayloadId)
    }
}

impl HelloWorldMessage {
    /// Encode the message; a hello payload longer than the maximum is
    /// refused.
    pub fn serialize(&self) -> (r: Result<Vec<u8>, MessageError>)
        ensures
            match r {
                Ok(bytes) => wf_message(*self) && bytes@ == spec_serialize(*self),
                Err(e) => e == MessageError::MessageTooLarge && !wf_message(*self),
            },
    {
        match self {
            HelloWorldMessage::Alive { program_id } => {
                let mut out: Vec<u8> = Vec::new();
                out.push(PAYLOAD_ID_ALIVE);
                out.extend_from_slice(program_id.as_slice());
                proof {
                    assert(out@ =~= seq![PAYLOAD_ID_ALIVE] + program_id@);
                }
                Ok(out)
            },
            HelloWorldMessage::Hello { message } => {
                if message.len() > HELLO_MESSAGE_MAX_LENGTH {
                    return Err(MessageError::MessageTooLarge);
                }
                let len16: u16 = message.len() as u16;
                proof {
                    assert((len16 >> 8) & 0xff < 256 && len16 & 0xff < 256) by (bit_vector);
                }
                let mut out: Vec<u8> = Vec::new();
                out.push(PAYLOAD_ID_HELLO);
                out.push(((len16 >> 8) & 0xff) as u8);
                out.push((len16 & 0xff) as u8);
                out.extend_from_slice(message.as_slice());
                proof {
                    assert(out@ =~= seq![PAYLOAD_ID_HELLO] + spec_u16_be(message@.len() as u16)
                        + message@);
                }
                Ok(out)
            },
        }
    }

    /// Parse the message a byte sequence opens with.
    #[verifier::loop_isolation(false)]
    pub fn deserialize(data: &[u8]) -> (r: Result<HelloWorldMessage, MessageError>)
        ensures
            match r {
                Ok(m) => spec_deserialize(data@) == Ok::<(u8, Seq<u8>), MessageError>(
                    message_repr(m),
                ),
                Err(e) => spec_deserialize(data@) == Err::<(u8, Seq<u8>), MessageError>(e),
            },
    {
        if data.len() < 1 {
            return Err(MessageError::UnexpectedEnd);
        }
        let tag = data[0];
        if tag == PAYLOAD_ID_ALIVE {
            if data.len() < 33 {
                return Err(MessageError::UnexpectedEnd);
            }
            let mut program_id = [0u8; 32];
            let mut i: usize = 0;
            while i < 32
                invariant
                    i <= 32,
                    forall|j: int| 0 <= j < i ==> program_id@[j] == data@[1 + j],
                decreases 32 - i,
            {
                program_id[i] = data[1 + i];
                i += 1;
            }
            proof {
                assert(program_id@ =~= data@.subrange(1, 33));
            }
            Ok(HelloWorldMessage::Alive { program_id })
        } else if tag == PAYLOAD_ID_HELLO {
            if data.len() < 3 {
                return Err(MessageError::UnexpectedEnd);
            }
            let length: usize = (data[1] as usize) * 256 + (data[2] as usize);
            if length > HELLO_MESSAGE_MAX_LENGTH {
                return Err(MessageError::MessageTooLarge);
            }
            if data.len() < 3 + length {
                return Err(MessageError::UnexpectedEnd);
            }
            let mut message: Vec<u8> = Vec::new();
            let mut i: usize = 0;
            while i < length
                invariant
                    i <= length,
                    message@.len() == i,
                    forall|j: int| 0 <= j < i ==> message@[j] == data@[3 + j],
                decreases length - i,
            {
                message.push(data[3 + i]);
                i += 1;
            }
            proof {
                assert(message@ =~= data@.subrange(3, 3 + length as int));
            }
            Ok(HelloWorldMessage::Hello { message })
        } else {
            Err(MessageError::InvalidPayloadId)
        }
    }
}

/// Law: encoding a well-formed message and parsing the bytes back yields the
/// same payload id and payload bytes.
pub proof fn lemma_message_round_trip(m: HelloWorldMessage)
    requires
        wf_message(m),
    ensures
        spec_deserialize(spec_serialize(m)) == Ok::<(u8, Seq<u8>), MessageError>(message_repr(m)),
{
    let d = spec_serialize(m);
    match m {
        HelloWorldMessage::Alive { program_id } => {
            assert(d.len() == 33);
            assert(d[0] == PAYLOAD_ID_ALIVE);
            assert(d.subrange(1, 33) =~= program_id@);
        },
        HelloWorldMessage::Hello { message } => {
            let n = message@.len() as u16;
            assert(((n >> 8) & 0xff) < 256 && (n & 0xff) < 256 && ((n >> 8) & 0xff) * 256 + (n
                & 0xff) == n) by (bit_vector);
            assert(d[0] == PAYLOAD_ID_HELLO);
            assert(d[1] == ((n >> 8) & 0xff) as u8);
            assert(d[2] == (n & 0xff) as u8);
            assert((d[1] as int) * 256 + (d[2] as int) == message@.len());
            assert(d.subrange(3, 3 + message@.len() as int) =~= message@);
        },
    }
}

} // verus!
