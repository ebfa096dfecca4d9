//! The put handler: the capability invoked once per acknowledged backend
//! write, whose success gates the success of the whole put. The default
//! implementation records a sync-queue row so the self-healer can finish
//! replication; alternates may replace it without changing the multiplexer.

use vstd::prelude::*;

use crate::ids::BlobstoreId;
use crate::ids::MultiplexId;
use crate::ids::OperationKey;
use crate::put::HandlerCall;
use crate::queue::BlobstoreSyncQueue;
use crate::queue::BlobstoreSyncQueueEntry;

verus! {

/// The policy called on each successful backend put; the put is successful
/// only once some invocation of this returns success. The timestamp is the
/// caller's wall clock, in epoch nanoseconds.
pub trait MultiplexedBlobstorePutHandler {
    fn on_put(
        &mut self,
        blobstore_id: BlobstoreId,
        multiplex_id: MultiplexId,
        operation_key: &OperationKey,
        key: &String,
        timestamp: i64,
    ) -> Result<(), String>;
}

/// The default handler: records one sync-queue row per acknowledged backend
/// write.
pub struct SyncQueuePutHandler {
    queue: BlobstoreSyncQueue,
}

impl SyncQueuePutHandler {
    pub closed spec fn wf(&self) -> bool {
        self.queue.wf()
    }

    /// The recorded rows, in log order.
    pub closed spec fn rows(&self) -> Seq<BlobstoreSyncQueueEntry> {
        self.queue@
    }

    /// The next row id the backing queue will assign.
    pub closed spec fn spec_next_id(&self) -> u64 {
        self.queue.spec_next_id()
    }

    pub fn new(queue: BlobstoreSyncQueue) -> (handler: SyncQueuePutHandler)
        requires
            queue.wf(),
        ensures
            handler.wf(),
            handler.rows() == queue@,
            handler.spec_next_id() == queue.spec_next_id(),
    {
        SyncQueuePutHandler { queue }
    }

    pub fn into_queue(self) -> (queue: BlobstoreSyncQueue)
        requires
            self.wf(),
        ensures
            queue.wf(),
            queue@ == self.rows(),
            queue.spec_next_id() == self.spec_next_id(),
    {
        self.queue
    }

    /// Records the write intent of one acknowledged backend put: a row under
    /// the put's operation key, stamped with the caller's clock. The row is
    /// durably queued when this returns, which is what entitles the
    /// multiplexer to declare the put successful.
    pub fn record(
        &mut self,
        blobstore_id: BlobstoreId,
        multiplex_id: MultiplexId,
        operation_key: &OperationKey,
        key: &String,
        timestamp: i64,
    ) -> (r: Result<(), String>)
        requires
            old(self).wf(),
            old(self).spec_next_id() < u64::MAX,
        ensures
            final(self).wf(),
            final(self).spec_next_id() == old(self).spec_next_id() + 1,
            r is Ok,
            exists|row: BlobstoreSyncQueueEntry|
                {
                    &&& final(self).rows() == old(self).rows().push(row)
                    &&& row.blobstore_key@ == key@
                    &&& row.blobstore_id == blobstore_id
                    &&& row.multiplex_id == multiplex_id
                    &&& row.timestamp == timestamp
                    &&& row.operation_key == *operation_key
                    &&& row.id is Some
                },
    {
        let entry = BlobstoreSyncQueueEntry::new(
            key.clone(),
            blobstore_id,
            multiplex_id,
            timestamp,
            *operation_key,
        );
        let ghost e0 = entry;
        let ghost id0 = self.queue.spec_next_id();
        self.queue.add(entry);
        proof {
            let row = crate::queue::with_id(e0, id0);
            assert(self.rows() == old(self).rows().push(row));
            assert(row.blobstore_key@ == key@ && row.blobstore_id == blobstore_id
                && row.multiplex_id == multiplex_id && row.timestamp == timestamp
                && row.operation_key == *operation_key && row.id is Some);
        }
        Ok(())
    }
}

/// The rows recorded under one operation key, in log order.
pub open spec fn rows_with_opkey(
    q: Seq<BlobstoreSyncQueueEntry>,
    key: OperationKey,
) -> Seq<BlobstoreSyncQueueEntry>
    decreases q.len(),
{
    if q.len() == 0 {
        Seq::empty()
    } else {
        let rest = rows_with_opkey(q.drop_last(), key);
        if q.last().operation_key == key {
            rest.push(q.last())
        } else {
            rest
        }
    }
}

/// Runs the default handler for every scheduled call of one put, as the
/// detached background work does after the put returns: one row is recorded
/// per acknowledged backend write, each under that call's operation key.
pub fn run_put_handlers(
    queue: &mut BlobstoreSyncQueue,
    calls: &Vec<HandlerCall>,
    timestamp: i64,
)
    requires
        old(queue).wf(),
        old(queue).spec_next_id() + calls@.len() <= u64::MAX,
    ensures
        final(queue).wf(),
        final(queue)@.len() == old(queue)@.len() + calls@.len(),
        final(queue)@.subrange(0, old(queue)@.len() as int) == old(queue)@,
        forall|i: int|
            0 <= i < calls@.len() ==> {
                let row = #[trigger] final(queue)@[old(queue)@.len() + i];
                &&& row.operation_key == calls@[i].operation_key
                &&& row.blobstore_id == calls@[i].blobstore_id
                &&& row.multiplex_id == calls@[i].multiplex_id
                &&& row.blobstore_key@ == calls@[i].key@
                &&& row.timestamp == timestamp
                &&& row.id is Some
            },
{
    let ghost q0 = old(queue)@;
    let n = calls.len();
    let mut i: usize = 0;
    while i < n
        invariant
            n == calls@.len(),
            i <= n,
            queue.wf(),
            queue.spec_next_id() + (n - i) <= u64::MAX,
            queue@.len() == q0.len() + i,
            queue@.subrange(0, q0.len() as int) == q0,
            forall|j: int|
                0 <= j < i ==> {
                    let row = #[trigger] queue@[q0.len() + j];
                    &&& row.operation_key == calls@[j].operation_key
                    &&& row.blobstore_id == calls@[j].blobstore_id
                    &&& row.multiplex_id == calls@[j].multiplex_id
                    &&& row.blobstore_key@ == calls@[j].key@
                    &&& row.timestamp == timestamp
                    &&& row.id is Some
                },
        decreases n - i,
    {
        let ghost before = queue@;
        let call = &calls[i];
        let entry = BlobstoreSyncQueueEntry::new(
            call.key.clone(),
            call.blobstore_id,
            call.multiplex_id,
            timestamp,
            call.operation_key,
        );
        queue.add(entry);
        proof {
            assert(queue@.subrange(0, q0.len() as int) =~= q0);
        }
        i = i + 1;
    }
}

/// No rows carry a key that nothing recorded.
pub proof fn lemma_rows_with_opkey_absent(q: Seq<BlobstoreSyncQueueEntry>, key: OperationKey)
    requires
        forall|i: int| 0 <= i < q.len() ==> (#[trigger] q[i]).operation_key != key,
    ensures
        rows_with_opkey(q, key) =~= Seq::<BlobstoreSyncQueueEntry>::empty(),
    decreases q.len(),
{
    if q.len() > 0 {
        lemma_rows_with_opkey_absent(q.drop_last(), key);
    }
}

/// The quiescence law of a put: once the detached handlers have run, the
/// queue holds exactly one row per acknowledged backend write of the put,
/// all sharing its operation key — given the key was fresh, which a
/// generated key is. `q0` is the queue before, `q1` after; the calls are the
/// put's scheduled handler calls in order.
pub proof fn lemma_put_quiescent_rows(
    q0: Seq<BlobstoreSyncQueueEntry>,
    q1: Seq<BlobstoreSyncQueueEntry>,
    calls: Seq<HandlerCall>,
    key: OperationKey,
)
    requires
        q1.len() == q0.len() + calls.len(),
        q1.subrange(0, q0.len() as int) == q0,
        forall|i: int| 0 <= i < q0.len() ==> (#[trigger] q0[i]).operation_key != key,
        forall|i: int| 0 <= i < calls.len() ==> (#[trigger] calls[i]).operation_key == key,
        forall|i: int|
            0 <= i < calls.len() ==> (#[trigger] q1[q0.len() + i]).operation_key
                == calls[i].operation_key && q1[q0.len() + i].blobstore_id
                == calls[i].blobstore_id,
    ensures
        rows_with_opkey(q1, key).len() == calls.len(),
        forall|i: int|
            0 <= i < calls.len() ==> (#[trigger] rows_with_opkey(q1, key)[i]).blobstore_id
                == calls[i].blobstore_id,
    decreases calls.len(),
{
    if calls.len() == 0 {
        assert(q1 =~= q0);
        lemma_rows_with_opkey_absent(q1, key);
    } else {
        let q1p = q1.drop_last();
        let callsp = calls.drop_last();
        assert(q1p.subrange(0, q0.len() as int) =~= q0);
        assert(forall|i: int|
            0 <= i < callsp.len() ==> (#[trigger] q1p[q0.len() + i]) == q1[q0.len() + i]);
        lemma_put_quiescent_rows(q0, q1p, callsp, key);
        assert(q1.last().operation_key == key);
        assert(rows_with_opkey(q1, key) == rows_with_opkey(q1p, key).push(q1.last()));
    }
}

} // verus!
