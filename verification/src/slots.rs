//! Parsing the platform's slot-hashes buffer: a little-endian count of
//! entries, then (slot number, 32-byte hash) pairs, newest first. The lookup
//! scans the entries in order for a requested slot number. Reading the
//! buffer, and checking which account it came from, is the caller's side.

use vstd::prelude::*;

use vstd::bytes::{spec_u64_from_le_bytes, u64_from_le_bytes};
use vstd::slice::slice_subrange;

verus! {

#[derive(Clone, Copy, Debug, PartialEq, Eq, Structural)]
pub enum ErrorCode {
    /// An entry's hash bytes could not be taken as a 32-byte value.
    InvalidLatestHashLength,
    /// The account handed in is not the slot-hashes sysvar.
    InvalidSlotHashesSysVar,
    /// The buffer holds no entries.
    SlotHashesNotAvailable,
    /// No entry carries the requested slot number.
    SlotNotFound,
}

/// How many entries the buffer claims to hold.
pub open spec fn spec_num_entries(data: Seq<u8>) -> u64 {
    spec_u64_from_le_bytes(data.subrange(0, 8))
}

/// The slot number of the entry at position `i`.
pub open spec fn entry_slot(data: Seq<u8>, i: int) -> u64 {
    spec_u64_from_le_bytes(data.subrange(8 + 40 * i, 16 + 40 * i))
}

/// The hash of the entry at position `i`.
pub open spec fn entry_hash(data: Seq<u8>, i: int) -> Seq<u8> {
    data.subrange(16 + 40 * i, 48 + 40 * i)
}

/// The position of the first entry at or after `k` carrying `slot`.
pub open spec fn find_slot_from(data: Seq<u8>, slot: u64, k: int, num: int) -> Option<int>
    decreases num - k,
{
    if k < 0 || k >= num {
        None
    } else if entry_slot(data, k) == slot {
        Some(k)
    } else {
        find_slot_from(data, slot, k + 1, num)
    }
}

/// Whether the buffer is long enough for the entries it claims.
pub open spec fn wf_slot_hashes(data: Seq<u8>) -> bool {
    &&& data.len() >= 8
    &&& data.len() >= 8 + 40 * (spec_num_entries(data) as int)
}

/// Look a slot number up in the slot-hashes buffer: scan the entries in
/// order and return the first one's (slot, hash); an empty buffer and an
/// absent slot each fail with their own error.
#[verifier::loop_isolation(false)]
pub fn get_slot(data: &[u8], slot_number: u64) -> (r: Result<(u64, [u8; 32]), ErrorCode>)
    requires
        wf_slot_hashes(data@),
    ensures
        ({
            let num = spec_num_entries(data@) as int;
            match r {
                Ok((s, h)) => {
                    &&& s == slot_number
                    &&& find_slot_from(data@, slot_number, 0, num) is Some
                    &&& h@ == entry_hash(data@, find_slot_from(data@, slot_number, 0, num)->Some_0)
                },
                Err(e) => if num == 0 {
                    e == ErrorCode::SlotHashesNotAvailable
                } else {
                    e == ErrorCode::SlotNotFound && find_slot_from(data@, slot_number, 0, num)
                        is None
                },
            }
        }),
{
    let data_len = data.len();
    let num = u64_from_le_bytes(slice_subrange(data, 0, 8));
    if num == 0 {
        return Err(ErrorCode::SlotHashesNotAvailable);
    }
    let mut k: u64 = 0;
    while k < num
        invariant
            k <= num,
            find_slot_from(data@, slot_number, 0, num as int) == find_slot_from(
                data@,
                slot_number,
                k as int,
                num as int,
            ),
        decreases num - k,
    {
        proof {
            assert(8 + 40 * (k as int) + 40 <= data@.len());
        }
        let pos: usize = 8 + 40 * (k as usize);
        let slot_k = u64_from_le_bytes(slice_subrange(data, pos, pos + 8));
        proof {
            assert(data@.subrange(pos as int, pos as int + 8) == data@.subrange(
                8 + 40 * (k as int),
                16 + 40 * (k as int),
            ));
            assert(slot_k == entry_slot(data@, k as int));
        }
        if slot_k == slot_number {
            let hash_slice = slice_subrange(data, pos + 8, pos + 40);
            let mut hash = [0u8; 32];
            let mut t: usize = 0;
            while t < 32
                invariant
                    t <= 32,
                    forall|j: int| 0 <= j < t ==> hash@[j] == hash_slice@[j],
                decreases 32 - t,
            {
                hash[t] = hash_slice[t];
                t += 1;
            }
            proof {
                assert(hash@ =~= entry_hash(data@, k as int));
            }
            return Ok((slot_number, hash));
        }
        k += 1;
    }
    Err(ErrorCode::SlotNotFound)
}

} // verus!
