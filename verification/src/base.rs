//! The multiplexer itself: an immutable configuration naming the backends of
//! one multiplex, with the verified reductions of each operation bound to
//! that configuration.
//!
//! The runtime dispatches one task per configured backend and collects the
//! outcomes in arrival order; the methods here decide what each operation
//! returns. A fan-out that ran to the end covers every configured backend,
//! which is what ties an `AllFailed` map to the configuration.

use vstd::prelude::*;
use vstd::seq_lib::*;

use crate::blob::BlobstoreGetData;
use crate::errors::ErrorKind;
use crate::fanout::GetResult;
use crate::fanout::blobstore_get;
use crate::fanout::error_ids;
use crate::fanout::get_spec;
use crate::fanout::has_found;
use crate::fanout::has_present;
use crate::fanout::is_present_reduce;
use crate::fanout::lemma_all_failed_errors_complete;
use crate::fanout::lemma_all_failed_presence_errors_complete;
use crate::fanout::lemma_all_failures_iff;
use crate::fanout::lemma_all_presence_failures_iff;
use crate::fanout::presence_ids;
use crate::fanout::presence_spec;
use crate::fanout::result_ids;
use crate::ids::BlobstoreId;
use crate::ids::MultiplexId;
use crate::put::HandlerCall;
use crate::put::PutCoordinator;
use crate::put::PutEvent;
use crate::put::events_ok;
use crate::put::put_reduce;
use crate::put::succeeded_ids;
use crate::scrub::scrub_get_reduce;
use crate::scrub::scrub_spec;

verus! {

/// One multiplex: its id, the ids of its backends (each unique), and the
/// telemetry sample rate. Immutable for the lifetime of the instance; the
/// backend capabilities themselves live with the runtime.
pub struct MultiplexedBlobstoreBase {
    pub multiplex_id: MultiplexId,
    pub blobstore_ids: Vec<BlobstoreId>,
    pub scuba_sample_rate: u64,
}

impl MultiplexedBlobstoreBase {
    /// Backend ids are unique within the multiplex, and the sample rate is
    /// at least one in every n.
    pub open spec fn wf(&self) -> bool {
        &&& forall|i: int, j: int|
            0 <= i < j < self.blobstore_ids@.len() ==> self.blobstore_ids@[i]
                != self.blobstore_ids@[j]
        &&& self.scuba_sample_rate >= 1
    }

    /// Whether an arrival sequence has exactly one outcome per configured
    /// backend (in whatever order they arrived).
    pub open spec fn covers(&self, ids: Seq<BlobstoreId>) -> bool {
        ids.to_multiset() == self.blobstore_ids@.to_multiset()
    }

    pub fn new(
        multiplex_id: MultiplexId,
        blobstore_ids: Vec<BlobstoreId>,
        scuba_sample_rate: u64,
    ) -> (base: MultiplexedBlobstoreBase)
        requires
            forall|i: int, j: int|
                0 <= i < j < blobstore_ids@.len() ==> blobstore_ids@[i] != blobstore_ids@[j],
            scuba_sample_rate >= 1,
        ensures
            base.wf(),
            base.multiplex_id == multiplex_id,
            base.blobstore_ids@ == blobstore_ids@,
            base.scuba_sample_rate == scuba_sample_rate,
    {
        MultiplexedBlobstoreBase { multiplex_id, blobstore_ids, scuba_sample_rate }
    }

    pub fn blobstore_count(&self) -> (n: usize)
        ensures
            n == self.blobstore_ids@.len(),
    {
        self.blobstore_ids.len()
    }

    /// Reduces a read fan-out against this multiplex. A winning value may cut
    /// the arrivals short; without a winner the sequence must cover every
    /// configured backend, so a total failure names exactly the configured
    /// backends.
    pub fn get(&self, results: &Vec<(BlobstoreId, GetResult)>) -> (r: Result<
        Option<BlobstoreGetData>,
        ErrorKind,
    >)
        requires
            has_found(results@) || self.covers(result_ids(results@)),
        ensures
            get_spec(results@, r),
            r matches Err(ErrorKind::AllFailed(m)) ==> error_ids(m@).to_multiset()
                == self.blobstore_ids@.to_multiset(),
    {
        let r = blobstore_get(results);
        proof {
            if r is Err && r->Err_0 is AllFailed {
                lemma_all_failures_iff(results@);
                lemma_all_failed_errors_complete(results@);
                assert(error_ids(r->Err_0->AllFailed_0@) =~= result_ids(results@));
            }
        }
        r
    }

    /// Reduces a presence fan-out against this multiplex, under the same
    /// coverage discipline as `get`.
    pub fn is_present(&self, results: &Vec<(BlobstoreId, Result<bool, String>)>) -> (r: Result<
        bool,
        ErrorKind,
    >)
        requires
            has_present(results@) || self.covers(presence_ids(results@)),
        ensures
            presence_spec(results@, r),
            r matches Err(ErrorKind::AllFailed(m)) ==> error_ids(m@).to_multiset()
                == self.blobstore_ids@.to_multiset(),
    {
        let r = is_present_reduce(results);
        proof {
            if r is Err && r->Err_0 is AllFailed {
                lemma_all_presence_failures_iff(results@);
                lemma_all_failed_presence_errors_complete(results@);
                assert(error_ids(r->Err_0->AllFailed_0@) =~= presence_ids(results@));
            }
        }
        r
    }

    /// Classifies a scrub fan-out against this multiplex. A scrub waits for
    /// every backend, so the arrivals always cover the configuration and a
    /// total failure names exactly the configured backends.
    pub fn scrub_get(&self, results: &Vec<(BlobstoreId, GetResult)>) -> (r: Result<
        Option<BlobstoreGetData>,
        ErrorKind,
    >)
        requires
            self.covers(result_ids(results@)),
        ensures
            scrub_spec(results@, r),
            r matches Err(ErrorKind::AllFailed(m)) ==> error_ids(m@).to_multiset()
                == self.blobstore_ids@.to_multiset(),
    {
        let r = scrub_get_reduce(results);
        proof {
            if r is Err && r->Err_0 is AllFailed {
                lemma_all_failures_iff(results@);
                lemma_all_failed_errors_complete(results@);
                assert(error_ids(r->Err_0->AllFailed_0@) =~= result_ids(results@));
            }
        }
        r
    }

    /// Starts a logical put across this multiplex's backends under a fresh
    /// operation key.
    pub fn start_put(&self, key: String) -> (c: PutCoordinator)
        ensures
            c.wf(),
            c.multiplex_id == self.multiplex_id,
            c.key@ == key@,
            c.operation_key.0 != 0,
            c.puts_outstanding == self.blobstore_ids@.len(),
            c.handlers_pending == 0,
            c.handlers_succeeded == 0,
            c.handlers_failed == 0,
            c.succeeded_puts@ =~= Seq::<BlobstoreId>::empty(),
            c.last_error is None,
            c.write_order == 0,
            c.completion is None,
    {
        PutCoordinator::new(self.multiplex_id, key, self.blobstore_ids.len())
    }

    /// Runs a whole logical put over its arrival sequence: starts a
    /// coordinator under a fresh operation key and reduces every event,
    /// detached work included. Returns the final coordinator (its
    /// `completion` is the put's outcome) and the handler calls scheduled,
    /// one per acknowledged upload, all under the put's operation key.
    pub fn put(&self, key: String, events: &Vec<PutEvent>) -> (r: (
        PutCoordinator,
        Vec<HandlerCall>,
    ))
        requires
            events_ok(self.blobstore_ids@.len() as nat, 0, events@),
            events@.len() < usize::MAX,
        ensures
            r.0.wf(),
            r.0.multiplex_id == self.multiplex_id,
            r.0.key@ == key@,
            r.0.operation_key.0 != 0,
            r.1@.len() == succeeded_ids(events@).len(),
            forall|i: int|
                0 <= i < r.1@.len() ==> {
                    &&& (#[trigger] r.1@[i]).blobstore_id == succeeded_ids(events@)[i]
                    &&& r.1@[i].operation_key == r.0.operation_key
                    &&& r.1@[i].multiplex_id == self.multiplex_id
                    &&& r.1@[i].key@ == key@
                },
            r.0.succeeded_puts@ == succeeded_ids(events@),
            (events@.len() > 0 && events@.len() == self.blobstore_ids@.len()
                && crate::put::all_put_failures(events@)) ==> (r.0.completion matches Some(
                crate::put::PutCompletion::Failure(m),
            ) && m@ == events@.last()->PutFailed_1@),
    {
        let c = self.start_put(key);
        let r = put_reduce(c, events);
        proof {
            assert(r.0.succeeded_puts@ =~= succeeded_ids(events@));
        }
        r
    }
}

} // verus!
