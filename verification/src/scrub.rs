//! The scrub read: a diagnostic fan-out that waits for every backend and
//! classifies cross-replica agreement instead of resolving the race.

use vstd::prelude::*;

use crate::blob::BlobstoreGetData;
use crate::blob::bytes_equal;
use crate::errors::ErrorKind;
use crate::fanout::GetResult;
use crate::fanout::errors_of;
use crate::fanout::has_found;
use crate::ids::BlobstoreId;

verus! {

/// The backends that responded without the value, in arrival order.
pub open spec fn missing_ids(rs: Seq<(BlobstoreId, GetResult)>) -> Seq<BlobstoreId>
    decreases rs.len(),
{
    if rs.len() == 0 {
        Seq::empty()
    } else {
        let rest = missing_ids(rs.drop_last());
        if rs.last().1 is Absent {
            rest.push(rs.last().0)
        } else {
            rest
        }
    }
}

/// The backends that responded with a value, in arrival order.
pub open spec fn answered_ids(rs: Seq<(BlobstoreId, GetResult)>) -> Seq<BlobstoreId>
    decreases rs.len(),
{
    if rs.len() == 0 {
        Seq::empty()
    } else {
        let rest = answered_ids(rs.drop_last());
        if rs.last().1 is Found {
            rest.push(rs.last().0)
        } else {
            rest
        }
    }
}

/// Whether every returned value carries byte-identical content. The raw
/// bytes are compared; metadata such as the creation timestamp is excluded.
pub open spec fn all_same(rs: Seq<(BlobstoreId, GetResult)>) -> bool {
    forall|i: int, j: int|
        0 <= i < rs.len() && 0 <= j < rs.len() && rs[i].1 is Found && rs[j].1 is Found
            ==> rs[i].1->Found_0.bytes@ == rs[j].1->Found_0.bytes@
}

/// Every response is exactly one of: a value, an absence, an error.
pub proof fn lemma_scrub_partition_counts(rs: Seq<(BlobstoreId, GetResult)>)
    ensures
        answered_ids(rs).len() + missing_ids(rs).len() + errors_of(rs).len() == rs.len(),
    decreases rs.len(),
{
    if rs.len() > 0 {
        lemma_scrub_partition_counts(rs.drop_last());
    }
}

/// Whether `v` is the first value among the responses, in full: bytes and
/// creation timestamp alike (a scrub does not strip it).
pub open spec fn is_first_found_value(rs: Seq<(BlobstoreId, GetResult)>, v: BlobstoreGetData) -> bool {
    exists|i: int|
        0 <= i < rs.len() && rs[i].1 is Found && (forall|j: int|
            0 <= j < i ==> !(rs[j].1 is Found)) && v.bytes@ == rs[i].1->Found_0.bytes@ && v.ctime
            == rs[i].1->Found_0.ctime
}

/// The scrub decision table for a given complete arrival sequence: no
/// success at all is a total failure; byte-divergent values are a mismatch;
/// agreeing values with lagging backends are a recoverable miss carrying the
/// agreed value; full agreement returns the value (or its absence) outright.
pub open spec fn scrub_spec(
    rs: Seq<(BlobstoreId, GetResult)>,
    r: Result<Option<BlobstoreGetData>, ErrorKind>,
) -> bool {
    match r {
        Ok(Some(v)) => {
            &&& all_same(rs)
            &&& missing_ids(rs).len() == 0
            &&& is_first_found_value(rs, v)
        },
        Ok(None) => {
            &&& !has_found(rs)
            &&& errors_of(rs).len() == 0
            &&& rs.len() > 0
        },
        Err(ErrorKind::AllFailed(m)) => {
            &&& m@ == errors_of(rs)
            &&& errors_of(rs).len() == rs.len()
        },
        Err(ErrorKind::SomeFailedOthersNone(m)) => {
            &&& !has_found(rs)
            &&& m@ == errors_of(rs)
            &&& 0 < errors_of(rs).len() < rs.len()
        },
        Err(ErrorKind::ValueMismatch(answered, missing)) => {
            &&& !all_same(rs)
            &&& answered@ == answered_ids(rs)
            &&& missing@ == missing_ids(rs)
        },
        Err(ErrorKind::SomeMissingItem(missing, value)) => {
            &&& all_same(rs)
            &&& missing_ids(rs).len() > 0
            &&& missing@ == missing_ids(rs)
            &&& value matches Some(v) && is_first_found_value(rs, v)
        },
    }
}

/// Classifies a complete scrub fan-out, one entry per backend in arrival
/// order, following the divergence decision table.
pub fn scrub_get_reduce(results: &Vec<(BlobstoreId, GetResult)>) -> (r: Result<
    Option<BlobstoreGetData>,
    ErrorKind,
>)
    ensures
        scrub_spec(results@, r),
{
    let n = results.len();
    let mut errors: Vec<(BlobstoreId, String)> = Vec::new();
    let mut missing: Vec<BlobstoreId> = Vec::new();
    let mut answered: Vec<BlobstoreId> = Vec::new();
    let mut best_value: Option<BlobstoreGetData> = None;
    let mut same_so_far = true;
    let mut i: usize = 0;
    while i < n
        invariant
            n == results@.len(),
            i <= n,
            errors@ == errors_of(results@.subrange(0, i as int)),
            missing@ == missing_ids(results@.subrange(0, i as int)),
            answered@ == answered_ids(results@.subrange(0, i as int)),
            ({
                let rs = results@;
                match best_value {
                    None => forall|j: int| 0 <= j < i ==> !(rs[j].1 is Found),
                    Some(w) => exists|fi: int|
                        0 <= fi < i && rs[fi].1 is Found && (forall|j: int|
                            0 <= j < fi ==> !(rs[j].1 is Found)) && w.bytes@
                            == rs[fi].1->Found_0.bytes@ && w.ctime == rs[fi].1->Found_0.ctime,
                }
            }),
            best_value is None ==> same_so_far,
            ({
                let rs = results@;
                best_value matches Some(w) ==> (same_so_far <==> (forall|j: int|
                    0 <= j < i && rs[j].1 is Found ==> rs[j].1->Found_0.bytes@ == w.bytes@))
            }),
        decreases n - i,
    {
        proof {
            assert(results@.subrange(0, i + 1).drop_last() =~= results@.subrange(0, i as int));
            assert(results@.subrange(0, i + 1).last() == results@[i as int]);
        }
        let id = results[i].0;
        match &results[i].1 {
            GetResult::Found(v) => {
                answered.push(id);
                match &best_value {
                    None => {
                        best_value = Some(v.duplicate());
                    },
                    Some(best) => {
                        if !bytes_equal(&v.bytes, &best.bytes) {
                            same_so_far = false;
                        }
                    },
                }
            },
            GetResult::Absent => {
                missing.push(id);
            },
            GetResult::Failure(message) => {
                errors.push((id, message.clone()));
            },
        }
        i = i + 1;
    }
    proof {
        assert(results@.subrange(0, n as int) =~= results@);
        lemma_scrub_partition_counts(results@);
    }
    if answered.len() == 0 && missing.len() == 0 {
        return Err(ErrorKind::AllFailed(errors));
    }
    if !same_so_far {
        proof {
            let rs = results@;
            let w = best_value->Some_0;
            let fi = choose|fi: int|
                0 <= fi < n && rs[fi].1 is Found && (forall|j: int|
                    0 <= j < fi ==> !(rs[j].1 is Found)) && w.bytes@ == rs[fi].1->Found_0.bytes@
                    && w.ctime == rs[fi].1->Found_0.ctime;
            let bad = choose|j: int|
                0 <= j < n && rs[j].1 is Found && rs[j].1->Found_0.bytes@ != w.bytes@;
            assert(rs[bad].1->Found_0.bytes@ != rs[fi].1->Found_0.bytes@);
        }
        return Err(ErrorKind::ValueMismatch(answered, missing));
    }
    match best_value {
        None => {
            if errors.len() == 0 {
                Ok(None)
            } else {
                Err(ErrorKind::SomeFailedOthersNone(errors))
            }
        },
        Some(v) => {
            if missing.len() > 0 {
                Err(ErrorKind::SomeMissingItem(missing, Some(v)))
            } else {
                Ok(Some(v))
            }
        },
    }
}

} // verus!
