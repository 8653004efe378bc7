//! The relay-facing edge of the core: read the finalized (nonce, root) pair
//! of a registry, refuse an unfinalized one, and build the ABI-encoded
//! payload a relay dispatches to a foreign domain. The transport itself
//! (fees, sequence bookkeeping, the foreign protocol) is a collaborator
//! outside this crate.

use vstd::prelude::*;

use alloy_sol_types::sol_data;
use alloy_sol_types::SolType;

use crate::snapshotter::Config;

verus! {

#[derive(Clone, Copy, Debug, PartialEq, Eq, Structural)]
pub enum ErrorCode {
    /// The registry's root is not finalized; nothing may be dispatched.
    RootNotFinalized,
}

/// One 32-byte word of the ABI encoding: the value's big-endian bytes,
/// left-padded with zeros.
pub open spec fn abi_word(n: u128) -> Seq<u8> {
    Seq::new(32, |i: int|
        if i < 16 {
            0u8
        } else {
            ((n >> (((31 - i) * 8) as u128)) & 0xff) as u8
        })
}

/// The Solidity ABI encoding of the parameter pair (uint256[], bytes32[]):
/// two offset words (the first array starts at byte 64, the second after the
/// first array's length word and elements), then each array as a length word
/// followed by its 32-byte elements.
pub open spec fn spec_abi_encode_ids_hashes(ids: Seq<u64>, hashes: Seq<Seq<u8>>) -> Seq<u8> {
    abi_word(64) + abi_word((96 + 32 * ids.len()) as u128) + abi_word(ids.len() as u128)
        + ids.map_values(|x: u64| abi_word(x as u128)).flatten() + abi_word(hashes.len() as u128)
        + hashes.flatten()
}

/// Relies on `alloy_sol_types::SolType::abi_encode_params` for the pair
/// (uint256[], bytes32[]): the standard Solidity ABI parameter encoding of
/// the two arrays, as `spec_abi_encode_ids_hashes` lays it out.
#[verifier::external_body]
fn abi_encode_ids_hashes(ids: &Vec<u64>, hashes: &Vec<[u8; 32]>) -> (r: Vec<u8>)
    ensures
        r@ == spec_abi_encode_ids_hashes(ids@, hashes@.map_values(|h: [u8; 32]| h@)),
{
    let mut ids256: Vec<alloy_primitives::U256> = Vec::new();
    for x in ids.iter() {
        ids256.push(alloy_primitives::U256::from(*x));
    }
    <(
        sol_data::Array<sol_data::Uint<256>>,
        sol_data::Array<sol_data::FixedBytes<32>>,
    )>::abi_encode_params(&(ids256, hashes.clone()))
}

/// A message with associated ids and hashes, the payload a relay transmits.
#[derive(Debug)]
pub struct Message {
    pub ids: Vec<u64>,
    pub hashes: Vec<[u8; 32]>,
}

impl Message {
    /// A message carrying one (nonce, root) pair.
    pub fn from(value: (u64, [u8; 32])) -> (m: Message)
        ensures
            m.ids@ == seq![value.0],
            m.hashes@ == seq![value.1],
    {
        let (id, hash) = value;
        let mut ids: Vec<u64> = Vec::new();
        ids.push(id);
        let mut hashes: Vec<[u8; 32]> = Vec::new();
        hashes.push(hash);
        proof {
            assert(ids@ =~= seq![value.0]);
            assert(hashes@ =~= seq![value.1]);
        }
        Message { ids, hashes }
    }

    /// The message's ABI-encoded bytes.
    pub fn serialize(&self) -> (r: Vec<u8>)
        ensures
            r@ == spec_abi_encode_ids_hashes(
                self.ids@,
                self.hashes@.map_values(|h: [u8; 32]| h@),
            ),
    {
        abi_encode_ids_hashes(&self.ids, &self.hashes)
    }
}

/// Read the finalized (nonce, root) of a registry and build the message a
/// relay dispatches; an unfinalized root is refused, so incomplete passes
/// never leave the domain.
pub fn dispatch_root(config: &Config) -> (r: Result<Message, ErrorCode>)
    ensures
        match r {
            Ok(m) => config.root_finalized && m.ids@ == seq![config.nonce] && m.hashes@ == seq![
                config.root,
            ],
            Err(e) => e == ErrorCode::RootNotFinalized && !config.root_finalized,
        },
{
    if !config.root_finalized {
        return Err(ErrorCode::RootNotFinalized);
    }
    Ok(Message::from((config.nonce, config.root)))
}

/// The big-endian bytes of the number, in the last 8 of 32 bytes.
pub open spec fn spec_u64_to_u8_32(n: u64) -> Seq<u8> {
    Seq::new(32, |i: int|
        if i < 24 {
            0u8
        } else {
            ((n >> (((31 - i) * 8) as u64)) & 0xff) as u8
        })
}

/// Spread a number over a 32-byte value, big-endian in the last 8 bytes.
#[verifier::loop_isolation(false)]
pub fn u64_to_u8_32(number: u64) -> (r: [u8; 32])
    ensures
        r@ == spec_u64_to_u8_32(number),
{
    let mut bytes = [0u8; 32];
    let mut i: usize = 24;
    while i < 32
        invariant
            24 <= i <= 32,
            forall|j: int| 0 <= j < 24 ==> bytes@[j] == 0u8,
            forall|j: int|
                24 <= j < i ==> bytes@[j] == ((number >> (((31 - j) * 8) as u64)) & 0xff) as u8,
        decreases 32 - i,
    {
        let shift: u64 = ((31 - i) * 8) as u64;
        proof {
            assert((number >> shift) & 0xff < 256) by (bit_vector);
        }
        bytes[i] = ((number >> shift) & 0xff) as u8;
        i += 1;
    }
    proof {
        assert(bytes@ =~= spec_u64_to_u8_32(number));
    }
    bytes
}

} // verus!
