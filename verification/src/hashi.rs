//! The threshold consensus checker: given a caller-supplied list of hash
//! records, validate each against the expected (adapter, domain, subject)
//! tuple, tally identical hash values, and succeed exactly when some value's
//! tally meets the threshold. Which value won is deliberately not reported.

use vstd::prelude::*;

use crate::adapter::HashAccount;
use crate::digest::bytes32_eq;

verus! {

#[derive(Clone, Copy, Debug, PartialEq, Eq, Structural)]
pub enum ErrorCode {
    /// No hash value's tally reached the threshold.
    ThresholdNotMet,
    /// The threshold exceeds the number of records provided.
    InvalidThreshold,
    /// No records were provided.
    NoAccountsProvided,
    /// A record's adapter does not match the adapter id at its position.
    InvalidAdapterId,
    /// The adapter id list and the record list have different lengths.
    InvalidAdapterIdsLength,
    /// A record's subject does not match the expected one.
    InvalidId,
    /// A record's domain does not match the expected one.
    InvalidDomain,
}

/// The hash values of a list of records, in order.
pub open spec fn hashes_of(recs: Seq<HashAccount>) -> Seq<Seq<u8>> {
    recs.map_values(|r: HashAccount| r.hash@)
}

/// How many of the hashes equal `h`.
pub open spec fn count_matching(hashes: Seq<Seq<u8>>, h: Seq<u8>) -> nat
    decreases hashes.len(),
{
    if hashes.len() == 0 {
        0
    } else {
        count_matching(hashes.drop_last(), h) + if hashes.last() == h {
            1nat
        } else {
            0nat
        }
    }
}

/// Whether some hash value occurs at least `threshold` times.
pub open spec fn meets_threshold(hashes: Seq<Seq<u8>>, threshold: u64) -> bool {
    exists|i: int|
        0 <= i < hashes.len() && count_matching(hashes, #[trigger] hashes[i]) >= threshold
}

/// The identity error the record at position `i` raises, if any: adapter
/// first, then domain, then subject.
pub open spec fn row_error(
    adapter: [u8; 32],
    domain: [u8; 32],
    id: [u8; 32],
    r: HashAccount,
) -> Option<ErrorCode> {
    if r.adapter_id@ != adapter@ {
        Some(ErrorCode::InvalidAdapterId)
    } else if r.domain@ != domain@ {
        Some(ErrorCode::InvalidDomain)
    } else if r.id@ != id@ {
        Some(ErrorCode::InvalidId)
    } else {
        None
    }
}

/// The first identity error at or after position `k`, records walked in
/// order.
pub open spec fn scan_error_from(
    adapter_ids: Seq<[u8; 32]>,
    domain: [u8; 32],
    id: [u8; 32],
    recs: Seq<HashAccount>,
    k: int,
) -> Option<ErrorCode>
    decreases recs.len() - k,
{
    if k < 0 || k >= recs.len() {
        None
    } else if row_error(adapter_ids[k], domain, id, recs[k]) is Some {
        row_error(adapter_ids[k], domain, id, recs[k])
    } else {
        scan_error_from(adapter_ids, domain, id, recs, k + 1)
    }
}

/// The outcome `check_hash_with_threshold` owes for these inputs, checks
/// applied in order: threshold shape, emptiness, length agreement, per-record
/// identity, and finally the tally against the threshold.
pub open spec fn spec_check_threshold(
    adapter_ids: Seq<[u8; 32]>,
    domain: [u8; 32],
    id: [u8; 32],
    threshold: u64,
    recs: Seq<HashAccount>,
) -> Result<(), ErrorCode> {
    if threshold > recs.len() {
        Err(ErrorCode::InvalidThreshold)
    } else if recs.len() == 0 {
        Err(ErrorCode::NoAccountsProvided)
    } else if recs.len() != adapter_ids.len() {
        Err(ErrorCode::InvalidAdapterIdsLength)
    } else {
        match scan_error_from(adapter_ids, domain, id, recs, 0) {
            Some(e) => Err(e),
            None => if meets_threshold(hashes_of(recs), threshold) {
                Ok(())
            } else {
                Err(ErrorCode::ThresholdNotMet)
            },
        }
    }
}

fn count_hash(records: &Vec<HashAccount>, h: &[u8; 32]) -> (c: u64)
    ensures
        c == count_matching(hashes_of(records@), h@),
{
    let mut c: u64 = 0;
    let mut j: usize = 0;
    while j < records.len()
        invariant
            j <= records@.len(),
            c == count_matching(hashes_of(records@).take(j as int), h@),
            c <= j,
        decreases records@.len() - j,
    {
        let r = &records[j];
        proof {
            assert(hashes_of(records@).take(j + 1).drop_last() =~= hashes_of(records@).take(
                j as int,
            ));
            assert(hashes_of(records@).take(j + 1).last() == records@[j as int].hash@);
        }
        if bytes32_eq(&r.hash, h) {
            c = c + 1;
        }
        j += 1;
    }
    proof {
        assert(hashes_of(records@).take(records@.len() as int) =~= hashes_of(records@));
    }
    c
}

/// Check whether at least `threshold` of the records, each first validated
/// against its adapter id and the expected domain and subject, agree on one
/// identical hash value. Succeeds exactly when some value's tally meets the
/// threshold; fails with the first validation error otherwise, in the order
/// `spec_check_threshold` lays down.
#[verifier::loop_isolation(false)]
pub fn check_hash_with_threshold(
    adapter_ids: &Vec<[u8; 32]>,
    domain: &[u8; 32],
    id: &[u8; 32],
    threshold: u64,
    records: &Vec<HashAccount>,
) -> (r: Result<(), ErrorCode>)
    ensures
        r == spec_check_threshold(adapter_ids@, *domain, *id, threshold, records@),
{
    let n = records.len();
    if threshold > n as u64 {
        return Err(ErrorCode::InvalidThreshold);
    }
    if n == 0 {
        return Err(ErrorCode::NoAccountsProvided);
    }
    if n != adapter_ids.len() {
        return Err(ErrorCode::InvalidAdapterIdsLength);
    }

    let mut i: usize = 0;
    while i < n
        invariant
            i <= n,
            scan_error_from(adapter_ids@, *domain, *id, records@, 0) == scan_error_from(
                adapter_ids@,
                *domain,
                *id,
                records@,
                i as int,
            ),
        decreases n - i,
    {
        let r = &records[i];
        if !bytes32_eq(&r.adapter_id, &adapter_ids[i]) {
            return Err(ErrorCode::InvalidAdapterId);
        }
        if !bytes32_eq(&r.domain, domain) {
            return Err(ErrorCode::InvalidDomain);
        }
        if !bytes32_eq(&r.id, id) {
            return Err(ErrorCode::InvalidId);
        }
        i += 1;
    }

    let mut max_count: u64 = 0;
    let ghost mut max_witness: int = 0;
    let mut j: usize = 0;
    while j < n
        invariant
            j <= n,
            j == 0 ==> max_count == 0,
            j > 0 ==> 0 <= max_witness < j && max_count == count_matching(
                hashes_of(records@),
                hashes_of(records@)[max_witness],
            ),
            forall|k: int|
                0 <= k < j ==> count_matching(
                    hashes_of(records@),
                    #[trigger] hashes_of(records@)[k],
                ) <= max_count,
        decreases n - j,
    {
        let r = &records[j];
        let c = count_hash(records, &r.hash);
        proof {
            assert(hashes_of(records@)[j as int] == records@[j as int].hash@);
        }
        if c >= max_count {
            max_count = c;
            proof {
                max_witness = j as int;
            }
        }
        j += 1;
    }

    if max_count >= threshold {
        proof {
            assert(count_matching(hashes_of(records@), hashes_of(records@)[max_witness])
                >= threshold);
        }
        Ok(())
    } else {
        Err(ErrorCode::ThresholdNotMet)
    }
}

} // verus!
