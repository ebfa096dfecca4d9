//! Reducers for fanned-out reads and presence checks.
//!
//! The surrounding runtime dispatches one call per backend and feeds the
//! per-backend outcomes back in arrival order; the functions here make every
//! decision: who wins a read race, and how a drained fan-out is classified
//! into success, absence, or an aggregate failure.

use vstd::prelude::*;

use crate::blob::BlobstoreGetData;
use crate::errors::ErrorKind;
use crate::ids::BlobstoreId;

verus! {

/// Outcome of one backend's read, as the runtime delivers it: a value, a
/// definite absence, or an error (a deadline expiry arrives as an error too,
/// see `remap_timeout_result`).
#[derive(Debug)]
pub enum GetResult {
    Found(BlobstoreGetData),
    Absent,
    Failure(String),
}

/// The per-backend errors among read outcomes, in arrival order.
pub open spec fn errors_of(rs: Seq<(BlobstoreId, GetResult)>) -> Seq<(BlobstoreId, String)>
    decreases rs.len(),
{
    if rs.len() == 0 {
        Seq::empty()
    } else {
        let rest = errors_of(rs.drop_last());
        if rs.last().1 is Failure {
            rest.push((rs.last().0, rs.last().1->Failure_0))
        } else {
            rest
        }
    }
}

/// Whether some backend returned a value.
pub open spec fn has_found(rs: Seq<(BlobstoreId, GetResult)>) -> bool {
    exists|i: int| 0 <= i < rs.len() && rs[i].1 is Found
}

/// The backend ids of a result vector, in arrival order.
pub open spec fn result_ids(rs: Seq<(BlobstoreId, GetResult)>) -> Seq<BlobstoreId> {
    rs.map_values(|p: (BlobstoreId, GetResult)| p.0)
}

/// The backend ids of an error vector, in arrival order.
pub open spec fn error_ids(es: Seq<(BlobstoreId, String)>) -> Seq<BlobstoreId> {
    es.map_values(|p: (BlobstoreId, String)| p.0)
}

/// There are never more collected errors than results.
pub proof fn lemma_errors_of_len(rs: Seq<(BlobstoreId, GetResult)>)
    ensures
        errors_of(rs).len() <= rs.len(),
    decreases rs.len(),
{
    if rs.len() > 0 {
        lemma_errors_of_len(rs.drop_last());
    }
}

/// The error map covers the whole fan-out exactly when every backend failed.
pub proof fn lemma_all_failures_iff(rs: Seq<(BlobstoreId, GetResult)>)
    ensures
        (errors_of(rs).len() == rs.len()) <==> (forall|i: int|
            0 <= i < rs.len() ==> rs[i].1 is Failure),
    decreases rs.len(),
{
    if rs.len() > 0 {
        lemma_all_failures_iff(rs.drop_last());
        lemma_errors_of_len(rs.drop_last());
        assert(forall|i: int| 0 <= i < rs.len() - 1 ==> rs.drop_last()[i] == rs[i]);
    }
}

/// When every backend failed, the collected error map names exactly the
/// backends that responded, in arrival order.
pub proof fn lemma_all_failed_errors_complete(rs: Seq<(BlobstoreId, GetResult)>)
    requires
        forall|i: int| 0 <= i < rs.len() ==> rs[i].1 is Failure,
    ensures
        errors_of(rs).len() == rs.len(),
        forall|i: int| 0 <= i < rs.len() ==> errors_of(rs)[i].0 == rs[i].0,
        error_ids(errors_of(rs)) =~= result_ids(rs),
    decreases rs.len(),
{
    if rs.len() > 0 {
        lemma_all_failed_errors_complete(rs.drop_last());
        assert(errors_of(rs) == errors_of(rs.drop_last()).push(
            (rs.last().0, rs.last().1->Failure_0),
        ));
        assert(forall|i: int| 0 <= i < rs.len() - 1 ==> rs.drop_last()[i] == rs[i]);
    }
}

/// What a normal read returns for a given arrival sequence: the first value
/// wins the race and loses its creation timestamp; otherwise all-absent is
/// an absent value, and errors aggregate into `AllFailed` when nobody
/// responded or `SomeFailedOthersNone` when some backends answered absent.
pub open spec fn get_spec(
    rs: Seq<(BlobstoreId, GetResult)>,
    r: Result<Option<BlobstoreGetData>, ErrorKind>,
) -> bool {
    match r {
        Ok(Some(v)) => {
            &&& v.ctime is None
            &&& exists|i: int|
                0 <= i < rs.len() && rs[i].1 is Found && v.bytes@ == rs[i].1->Found_0.bytes@ && (
                forall|j: int| 0 <= j < i ==> !(rs[j].1 is Found))
        },
        Ok(None) => !has_found(rs) && errors_of(rs).len() == 0,
        Err(ErrorKind::AllFailed(m)) => {
            &&& !has_found(rs)
            &&& m@ == errors_of(rs)
            &&& errors_of(rs).len() == rs.len()
            &&& rs.len() > 0
        },
        Err(ErrorKind::SomeFailedOthersNone(m)) => {
            &&& !has_found(rs)
            &&& m@ == errors_of(rs)
            &&& 0 < errors_of(rs).len() < rs.len()
        },
        Err(_) => false,
    }
}

/// Reduces a drained read fan-out, one entry per backend in arrival order.
///
/// The first backend that returned a value wins the race: its bytes come
/// back with the creation timestamp stripped. Without a winner, the fan-out
/// is classified: all absent is an absent value, everything else is an
/// aggregate failure naming each errored backend.
pub fn blobstore_get(results: &Vec<(BlobstoreId, GetResult)>) -> (r: Result<
    Option<BlobstoreGetData>,
    ErrorKind,
>)
    ensures
        get_spec(results@, r),
{
    let n = results.len();
    let mut errors: Vec<(BlobstoreId, String)> = Vec::new();
    let mut i: usize = 0;
    while i < n
        invariant
            n == results@.len(),
            i <= n,
            errors@ == errors_of(results@.subrange(0, i as int)),
            forall|j: int| 0 <= j < i ==> !(results@[j].1 is Found),
        decreases n - i,
    {
        proof {
            assert(results@.subrange(0, i + 1).drop_last() =~= results@.subrange(0, i as int));
            assert(results@.subrange(0, i + 1).last() == results@[i as int]);
        }
        match &results[i].1 {
            GetResult::Found(v) => {
                let mut winner = v.duplicate();
                winner.remove_ctime();
                return Ok(Some(winner));
            },
            GetResult::Absent => {},
            GetResult::Failure(msg) => {
                errors.push((results[i].0, msg.clone()));
            },
        }
        i = i + 1;
    }
    proof {
        assert(results@.subrange(0, n as int) =~= results@);
        lemma_errors_of_len(results@);
    }
    if errors.len() == 0 {
        Ok(None)
    } else if errors.len() == n {
        Err(ErrorKind::AllFailed(errors))
    } else {
        Err(ErrorKind::SomeFailedOthersNone(errors))
    }
}

/// The per-backend errors among presence outcomes, in arrival order.
pub open spec fn presence_errors_of(rs: Seq<(BlobstoreId, Result<bool, String>)>) -> Seq<
    (BlobstoreId, String),
>
    decreases rs.len(),
{
    if rs.len() == 0 {
        Seq::empty()
    } else {
        let rest = presence_errors_of(rs.drop_last());
        if rs.last().1 is Err {
            rest.push((rs.last().0, rs.last().1->Err_0))
        } else {
            rest
        }
    }
}

/// Whether some backend reported the key present.
pub open spec fn has_present(rs: Seq<(BlobstoreId, Result<bool, String>)>) -> bool {
    exists|i: int| 0 <= i < rs.len() && rs[i].1 == Ok::<bool, String>(true)
}

/// The backend ids of a presence result vector, in arrival order.
pub open spec fn presence_ids(rs: Seq<(BlobstoreId, Result<bool, String>)>) -> Seq<BlobstoreId> {
    rs.map_values(|p: (BlobstoreId, Result<bool, String>)| p.0)
}

/// There are never more collected presence errors than results.
pub proof fn lemma_presence_errors_of_len(rs: Seq<(BlobstoreId, Result<bool, String>)>)
    ensures
        presence_errors_of(rs).len() <= rs.len(),
    decreases rs.len(),
{
    if rs.len() > 0 {
        lemma_presence_errors_of_len(rs.drop_last());
    }
}

/// The error map of a presence check covers the whole fan-out exactly when
/// every backend failed.
pub proof fn lemma_all_presence_failures_iff(rs: Seq<(BlobstoreId, Result<bool, String>)>)
    ensures
        (presence_errors_of(rs).len() == rs.len()) <==> (forall|i: int|
            0 <= i < rs.len() ==> rs[i].1 is Err),
    decreases rs.len(),
{
    if rs.len() > 0 {
        lemma_all_presence_failures_iff(rs.drop_last());
        lemma_presence_errors_of_len(rs.drop_last());
        assert(forall|i: int| 0 <= i < rs.len() - 1 ==> rs.drop_last()[i] == rs[i]);
    }
}

/// When every backend failed, the collected error map of a presence check
/// names exactly the backends that responded, in arrival order.
pub proof fn lemma_all_failed_presence_errors_complete(
    rs: Seq<(BlobstoreId, Result<bool, String>)>,
)
    requires
        forall|i: int| 0 <= i < rs.len() ==> rs[i].1 is Err,
    ensures
        presence_errors_of(rs).len() == rs.len(),
        forall|i: int| 0 <= i < rs.len() ==> presence_errors_of(rs)[i].0 == rs[i].0,
        error_ids(presence_errors_of(rs)) =~= presence_ids(rs),
    decreases rs.len(),
{
    if rs.len() > 0 {
        lemma_all_failed_presence_errors_complete(rs.drop_last());
        assert(presence_errors_of(rs) == presence_errors_of(rs.drop_last()).push(
            (rs.last().0, rs.last().1->Err_0),
        ));
        assert(forall|i: int| 0 <= i < rs.len() - 1 ==> rs.drop_last()[i] == rs[i]);
    }
}

/// What a presence check returns for a given arrival sequence: present as
/// soon as one backend says so, absent when every backend responded and said
/// no, an aggregate failure otherwise.
pub open spec fn presence_spec(
    rs: Seq<(BlobstoreId, Result<bool, String>)>,
    r: Result<bool, ErrorKind>,
) -> bool {
    match r {
        Ok(true) => has_present(rs),
        Ok(false) => !has_present(rs) && presence_errors_of(rs).len() == 0,
        Err(ErrorKind::AllFailed(m)) => {
            &&& !has_present(rs)
            &&& m@ == presence_errors_of(rs)
            &&& presence_errors_of(rs).len() == rs.len()
            &&& rs.len() > 0
        },
        Err(ErrorKind::SomeFailedOthersNone(m)) => {
            &&& !has_present(rs)
            &&& m@ == presence_errors_of(rs)
            &&& 0 < presence_errors_of(rs).len() < rs.len()
        },
        Err(_) => false,
    }
}

/// Reduces a drained presence fan-out, one entry per backend in arrival
/// order: present as soon as one backend says so, absent when every backend
/// responded and said no, an aggregate failure otherwise.
pub fn is_present_reduce(results: &Vec<(BlobstoreId, Result<bool, String>)>) -> (r: Result<
    bool,
    ErrorKind,
>)
    ensures
        presence_spec(results@, r),
{
    let n = results.len();
    let mut errors: Vec<(BlobstoreId, String)> = Vec::new();
    let mut i: usize = 0;
    while i < n
        invariant
            n == results@.len(),
            i <= n,
            errors@ == presence_errors_of(results@.subrange(0, i as int)),
            forall|j: int| 0 <= j < i ==> results@[j].1 != Ok::<bool, String>(true),
        decreases n - i,
    {
        proof {
            assert(results@.subrange(0, i + 1).drop_last() =~= results@.subrange(0, i as int));
            assert(results@.subrange(0, i + 1).last() == results@[i as int]);
        }
        match &results[i].1 {
            Ok(present) => {
                if *present {
                    return Ok(true);
                }
            },
            Err(msg) => {
                errors.push((results[i].0, msg.clone()));
            },
        }
        i = i + 1;
    }
    proof {
        assert(results@.subrange(0, n as int) =~= results@);
        lemma_presence_errors_of_len(results@);
    }
    if errors.len() == 0 {
        Ok(false)
    } else if errors.len() == n {
        Err(ErrorKind::AllFailed(errors))
    } else {
        Err(ErrorKind::SomeFailedOthersNone(errors))
    }
}

/// All-absent fan-outs collect no errors.
pub proof fn lemma_all_absent_no_errors(rs: Seq<(BlobstoreId, GetResult)>)
    requires
        forall|i: int| 0 <= i < rs.len() ==> rs[i].1 is Absent,
    ensures
        errors_of(rs) =~= Seq::<(BlobstoreId, String)>::empty(),
    decreases rs.len(),
{
    if rs.len() > 0 {
        lemma_all_absent_no_errors(rs.drop_last());
    }
}

/// Law: a read returns a value exactly when some backend holds one, the
/// value's bytes are the first arrival's, and it carries no creation
/// timestamp.
pub proof fn lemma_get_value_iff(
    rs: Seq<(BlobstoreId, GetResult)>,
    r: Result<Option<BlobstoreGetData>, ErrorKind>,
)
    requires
        get_spec(rs, r),
    ensures
        (r matches Ok(v) && v is Some) <==> has_found(rs),
        match r {
            Ok(Some(d)) => d.ctime is None,
            _ => true,
        },
{
}

/// Law: when every backend answers that the value is absent, the read
/// returns its absence, not an error.
pub proof fn lemma_get_none_when_all_absent(
    rs: Seq<(BlobstoreId, GetResult)>,
    r: Result<Option<BlobstoreGetData>, ErrorKind>,
)
    requires
        get_spec(rs, r),
        forall|i: int| 0 <= i < rs.len() ==> rs[i].1 is Absent,
    ensures
        r matches Ok(v) && v is None,
{
    lemma_all_absent_no_errors(rs);
    lemma_errors_of_len(rs);
    if has_found(rs) {
        let i = choose|i: int| 0 <= i < rs.len() && rs[i].1 is Found;
        assert(rs[i].1 is Absent);
    }
}

/// Law: when every backend of the multiplex fails, the read fails with a
/// map naming each configured backend exactly once each.
pub proof fn lemma_get_all_failed_names_backends(
    rs: Seq<(BlobstoreId, GetResult)>,
    r: Result<Option<BlobstoreGetData>, ErrorKind>,
    configured: Seq<BlobstoreId>,
)
    requires
        get_spec(rs, r),
        result_ids(rs).to_multiset() == configured.to_multiset(),
        r matches Err(e) && e is AllFailed,
    ensures
        r matches Err(e) && e matches ErrorKind::AllFailed(m) && error_ids(m@).to_multiset()
            == configured.to_multiset(),
{
    lemma_all_failures_iff(rs);
    lemma_all_failed_errors_complete(rs);
    assert(error_ids(r->Err_0->AllFailed_0@) =~= result_ids(rs));
}

/// Law: a backend that outruns its deadline only contributes an error to the
/// fan-out; it never keeps a read from returning the value another backend
/// holds.
pub proof fn lemma_timeout_does_not_block(
    rs: Seq<(BlobstoreId, GetResult)>,
    r: Result<Option<BlobstoreGetData>, ErrorKind>,
)
    requires
        get_spec(rs, r),
        has_found(rs),
    ensures
        r matches Ok(v) && v is Some,
{
}

/// Folds a deadline expiry into the operation's own error space: a call that
/// outran its deadline is reported as the well-known timeout error.
pub fn remap_timeout_result<O, E>(timeout_or_result: Result<Result<O, String>, E>) -> (r: Result<
    O,
    String,
>)
    ensures
        match timeout_or_result {
            Ok(res) => r == res,
            Err(_) => r is Err && r->Err_0@ == "blobstore operation timeout"@,
        },
{
    match timeout_or_result {
        Ok(res) => res,
        Err(_) => Err("blobstore operation timeout".to_owned()),
    }
}

/// Finishes one backend's upload: folds a deadline expiry into the error
/// space and tags a successful write with the backend that made it.
pub fn inner_put<E>(
    blobstore_id: BlobstoreId,
    timeout_or_result: Result<Result<(), String>, E>,
) -> (r: Result<BlobstoreId, String>)
    ensures
        match timeout_or_result {
            Ok(Ok(())) => r == Ok::<BlobstoreId, String>(blobstore_id),
            Ok(Err(e)) => r == Err::<BlobstoreId, String>(e),
            Err(_) => r is Err && r->Err_0@ == "blobstore operation timeout"@,
        },
{
    match remap_timeout_result(timeout_or_result) {
        Ok(()) => Ok(blobstore_id),
        Err(e) => Err(e),
    }
}

} // verus!
