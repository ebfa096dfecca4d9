//! The write coordinator.
//!
//! A logical put fans out one upload per backend; each acknowledged upload
//! schedules a handler invocation that durably records the write intent. The
//! put succeeds as soon as one handler succeeds, or as soon as every upload
//! succeeded with no failure observed; it fails with the last error once
//! both pools are exhausted. Work outstanding at success is detached, not
//! cancelled, so replication and intent logging continue in the background.
//!
//! The runtime owns the tasks; the coordinator here makes every decision.
//! It consumes the pool events in arrival order, instructs the runtime which
//! handler to schedule, and declares the completion.

use vstd::prelude::*;

use crate::ids::BlobstoreId;
use crate::ids::MultiplexId;
use crate::ids::OperationKey;

verus! {

/// An instruction to invoke the put handler for one acknowledged backend
/// write. Every call of one logical put carries the same operation key.
#[derive(Debug)]
pub struct HandlerCall {
    pub blobstore_id: BlobstoreId,
    pub multiplex_id: MultiplexId,
    pub operation_key: OperationKey,
    pub key: String,
}

/// One arrival from the two concurrent pools: an upload finished, or a
/// scheduled handler finished.
#[derive(Debug)]
pub enum PutEvent {
    PutSucceeded(BlobstoreId),
    PutFailed(BlobstoreId, String),
    HandlerSucceeded,
    HandlerFailed(String),
}

/// How a logical put ends.
#[derive(Debug)]
pub enum PutCompletion {
    Success,
    Failure(String),
}

/// The decision state of one logical put.
pub struct PutCoordinator {
    pub multiplex_id: MultiplexId,
    pub key: String,
    pub operation_key: OperationKey,
    /// Uploads dispatched and not yet finished.
    pub puts_outstanding: usize,
    /// Handlers scheduled and not yet finished.
    pub handlers_pending: usize,
    /// Handlers that finished successfully.
    pub handlers_succeeded: usize,
    /// Handlers that finished with an error.
    pub handlers_failed: usize,
    /// Backends whose upload succeeded, in arrival order. One handler call
    /// was emitted for each.
    pub succeeded_puts: Vec<BlobstoreId>,
    /// The most recent upload or handler error.
    pub last_error: Option<String>,
    /// Telemetry: uploads dispatched so far; strictly increasing within the
    /// put.
    pub write_order: usize,
    /// The declared outcome, set once and never changed.
    pub completion: Option<PutCompletion>,
    /// How many handlers had succeeded at the moment the outcome was set.
    pub completion_handler_oks: Ghost<nat>,
    /// Whether the outcome was success declared on the last upload finishing
    /// cleanly (as opposed to success declared by a finished handler).
    pub completion_all_puts_clean: Ghost<bool>,
}

impl PutCoordinator {
    /// Accounting that every step preserves. In particular: while no outcome
    /// is declared no handler has succeeded, so a success declared by a
    /// handler event happens at exactly one handler success; and a success
    /// declared on the last clean upload happens at exactly zero.
    pub open spec fn wf(&self) -> bool {
        &&& self.succeeded_puts@.len() == self.handlers_pending + self.handlers_succeeded
            + self.handlers_failed
        &&& (self.completion is None ==> self.handlers_succeeded == 0)
        &&& (self.completion matches Some(PutCompletion::Success) ==> {
            &&& (self.completion_all_puts_clean@ ==> self.completion_handler_oks@ == 0)
            &&& (!self.completion_all_puts_clean@ ==> self.completion_handler_oks@ == 1)
        })
        &&& self.operation_key.0 != 0
    }

    /// The fields that no pool event changes.
    pub open spec fn same_put(&self, other: &PutCoordinator) -> bool {
        &&& self.multiplex_id == other.multiplex_id
        &&& self.key == other.key
        &&& self.operation_key == other.operation_key
        &&& self.write_order == other.write_order
    }

    /// Starts a logical put across `n_backends` backends under a fresh
    /// operation key.
    pub fn new(multiplex_id: MultiplexId, key: String, n_backends: usize) -> (c: PutCoordinator)
        ensures
            c.wf(),
            c.multiplex_id == multiplex_id,
            c.key@ == key@,
            c.operation_key.0 != 0,
            c.puts_outstanding == n_backends,
            c.handlers_pending == 0,
            c.handlers_succeeded == 0,
            c.handlers_failed == 0,
            c.succeeded_puts@ =~= Seq::<BlobstoreId>::empty(),
            c.last_error is None,
            c.write_order == 0,
            c.completion is None,
    {
        PutCoordinator {
            multiplex_id,
            key,
            operation_key: OperationKey::gen(),
            puts_outstanding: n_backends,
            handlers_pending: 0,
            handlers_succeeded: 0,
            handlers_failed: 0,
            succeeded_puts: Vec::new(),
            last_error: None,
            write_order: 0,
            completion: None,
            completion_handler_oks: Ghost(0),
            completion_all_puts_clean: Ghost(false),
        }
    }

    /// Telemetry: the 1-based dispatch index of the next upload. Strictly
    /// increasing within the put.
    pub fn next_write_order(&mut self) -> (order: usize)
        requires
            old(self).write_order < usize::MAX,
        ensures
            final(self).write_order == old(self).write_order + 1,
            order == final(self).write_order,
            final(self).wf() == old(self).wf(),
            *final(self) == (PutCoordinator { write_order: final(self).write_order, ..*old(self) }),
    {
        self.write_order = self.write_order + 1;
        self.write_order
    }

    /// An upload was acknowledged by `blobstore_id`: schedule its handler.
    /// Returns the call to schedule; when this was the last upload and no
    /// error was observed, the put is declared successful and the pending
    /// handlers are left to the background.
    pub fn on_put_success(&mut self, blobstore_id: BlobstoreId) -> (call: HandlerCall)
        requires
            old(self).wf(),
            old(self).puts_outstanding > 0,
            old(self).handlers_pending < usize::MAX,
        ensures
            final(self).wf(),
            final(self).same_put(old(self)),
            call.blobstore_id == blobstore_id,
            call.multiplex_id == old(self).multiplex_id,
            call.operation_key == old(self).operation_key,
            call.key@ == old(self).key@,
            final(self).puts_outstanding == old(self).puts_outstanding - 1,
            final(self).handlers_pending == old(self).handlers_pending + 1,
            final(self).handlers_succeeded == old(self).handlers_succeeded,
            final(self).handlers_failed == old(self).handlers_failed,
            final(self).succeeded_puts@ == old(self).succeeded_puts@.push(blobstore_id),
            final(self).last_error == old(self).last_error,
            ({
                let declares = old(self).completion is None && final(self).puts_outstanding == 0
                    && old(self).last_error is None;
                if declares {
                    final(self).completion matches Some(PutCompletion::Success)
                } else {
                    final(self).completion == old(self).completion
                }
            }),
    {
        self.puts_outstanding = self.puts_outstanding - 1;
        self.handlers_pending = self.handlers_pending + 1;
        self.succeeded_puts.push(blobstore_id);
        let call = HandlerCall {
            blobstore_id,
            multiplex_id: self.multiplex_id,
            operation_key: self.operation_key,
            key: self.key.clone(),
        };
        if self.completion.is_none() && self.puts_outstanding == 0 && self.last_error.is_none() {
            self.completion = Some(PutCompletion::Success);
            proof {
                self.completion_handler_oks@ = self.handlers_succeeded as nat;
                self.completion_all_puts_clean@ = true;
            }
        }
        call
    }

    /// An upload failed: remember the error; when both pools are now empty
    /// and no success was ever declared, the put fails with this error.
    pub fn on_put_failure(&mut self, message: String)
        requires
            old(self).wf(),
            old(self).puts_outstanding > 0,
        ensures
            final(self).wf(),
            final(self).same_put(old(self)),
            final(self).puts_outstanding == old(self).puts_outstanding - 1,
            final(self).handlers_pending == old(self).handlers_pending,
            final(self).handlers_succeeded == old(self).handlers_succeeded,
            final(self).handlers_failed == old(self).handlers_failed,
            final(self).succeeded_puts@ == old(self).succeeded_puts@,
            final(self).last_error matches Some(m) && m@ == message@,
            ({
                let declares = old(self).completion is None && final(self).puts_outstanding == 0
                    && final(self).handlers_pending == 0;
                if declares {
                    final(self).completion matches Some(PutCompletion::Failure(m)) && m@ == message@
                } else {
                    final(self).completion == old(self).completion
                }
            }),
    {
        self.puts_outstanding = self.puts_outstanding - 1;
        if self.completion.is_none() && self.puts_outstanding == 0 && self.handlers_pending == 0 {
            self.completion = Some(PutCompletion::Failure(message.clone()));
        }
        self.last_error = Some(message);
    }

    /// A handler finished successfully: the write intent is durably
    /// recorded, so the put is declared successful if it was not already;
    /// remaining uploads and handlers are left to the background.
    pub fn on_handler_success(&mut self)
        requires
            old(self).wf(),
            old(self).handlers_pending > 0,
            old(self).handlers_succeeded < usize::MAX,
        ensures
            final(self).wf(),
            final(self).same_put(old(self)),
            final(self).puts_outstanding == old(self).puts_outstanding,
            final(self).handlers_pending == old(self).handlers_pending - 1,
            final(self).handlers_succeeded == old(self).handlers_succeeded + 1,
            final(self).handlers_failed == old(self).handlers_failed,
            final(self).succeeded_puts@ == old(self).succeeded_puts@,
            final(self).last_error == old(self).last_error,
            ({
                if old(self).completion is None {
                    final(self).completion matches Some(PutCompletion::Success)
                        && final(self).handlers_succeeded == 1
                } else {
                    final(self).completion == old(self).completion
                }
            }),
    {
        self.handlers_pending = self.handlers_pending - 1;
        self.handlers_succeeded = self.handlers_succeeded + 1;
        if self.completion.is_none() {
            self.completion = Some(PutCompletion::Success);
            proof {
                self.completion_handler_oks@ = self.handlers_succeeded as nat;
                self.completion_all_puts_clean@ = false;
            }
        }
    }

    /// A handler failed: remember the error; when both pools are now empty
    /// and no success was ever declared, the put fails with this error.
    pub fn on_handler_failure(&mut self, message: String)
        requires
            old(self).wf(),
            old(self).handlers_pending > 0,
            old(self).handlers_failed < usize::MAX,
        ensures
            final(self).wf(),
            final(self).same_put(old(self)),
            final(self).puts_outstanding == old(self).puts_outstanding,
            final(self).handlers_pending == old(self).handlers_pending - 1,
            final(self).handlers_succeeded == old(self).handlers_succeeded,
            final(self).handlers_failed == old(self).handlers_failed + 1,
            final(self).succeeded_puts@ == old(self).succeeded_puts@,
            final(self).last_error matches Some(m) && m@ == message@,
            ({
                let declares = old(self).completion is None && final(self).puts_outstanding == 0
                    && final(self).handlers_pending == 0;
                if declares {
                    final(self).completion matches Some(PutCompletion::Failure(m)) && m@ == message@
                } else {
                    final(self).completion == old(self).completion
                }
            }),
    {
        self.handlers_pending = self.handlers_pending - 1;
        self.handlers_failed = self.handlers_failed + 1;
        if self.completion.is_none() && self.puts_outstanding == 0 && self.handlers_pending == 0 {
            self.completion = Some(PutCompletion::Failure(message.clone()));
        }
        self.last_error = Some(message);
    }
}

/// Whether an event sequence can come out of the two pools: an upload event
/// needs an outstanding upload, a handler event a pending handler.
pub open spec fn events_ok(puts_left: nat, pending: nat, events: Seq<PutEvent>) -> bool
    decreases events.len(),
{
    events.len() == 0 || {
        let rest = events.skip(1);
        match events[0] {
            PutEvent::PutSucceeded(_) => puts_left > 0 && events_ok(
                (puts_left - 1) as nat,
                pending + 1,
                rest,
            ),
            PutEvent::PutFailed(_, _) => puts_left > 0 && events_ok(
                (puts_left - 1) as nat,
                pending,
                rest,
            ),
            PutEvent::HandlerSucceeded => pending > 0 && events_ok(
                puts_left,
                (pending - 1) as nat,
                rest,
            ),
            PutEvent::HandlerFailed(_) => pending > 0 && events_ok(
                puts_left,
                (pending - 1) as nat,
                rest,
            ),
        }
    }
}

/// The backends whose upload succeeded, in arrival order.
pub open spec fn succeeded_ids(events: Seq<PutEvent>) -> Seq<BlobstoreId>
    decreases events.len(),
{
    if events.len() == 0 {
        Seq::empty()
    } else {
        let rest = succeeded_ids(events.drop_last());
        if events.last() is PutSucceeded {
            rest.push(events.last()->PutSucceeded_0)
        } else {
            rest
        }
    }
}

/// Whether every event is a failed upload.
pub open spec fn all_put_failures(events: Seq<PutEvent>) -> bool {
    forall|i: int| 0 <= i < events.len() ==> events[i] is PutFailed
}

/// Drives a coordinator over a whole arrival sequence, detached work
/// included, and collects the handler calls to schedule.
///
/// The returned calls pair up with the acknowledged uploads in arrival
/// order, every one under the put's operation key. An outcome once declared
/// never changes; and when every backend fails, the put fails with the last
/// backend's error.
pub fn put_reduce(c: PutCoordinator, events: &Vec<PutEvent>) -> (r: (
    PutCoordinator,
    Vec<HandlerCall>,
))
    requires
        c.wf(),
        events_ok(c.puts_outstanding as nat, c.handlers_pending as nat, events@),
        c.handlers_pending + events@.len() < usize::MAX,
        c.handlers_succeeded + events@.len() < usize::MAX,
        c.handlers_failed + events@.len() < usize::MAX,
    ensures
        r.0.wf(),
        r.0.same_put(&c),
        r.1@.len() == succeeded_ids(events@).len(),
        forall|i: int|
            0 <= i < r.1@.len() ==> {
                &&& (#[trigger] r.1@[i]).blobstore_id == succeeded_ids(events@)[i]
                &&& r.1@[i].operation_key == c.operation_key
                &&& r.1@[i].multiplex_id == c.multiplex_id
                &&& r.1@[i].key@ == c.key@
            },
        r.0.succeeded_puts@ == c.succeeded_puts@ + succeeded_ids(events@),
        c.completion is Some ==> r.0.completion == c.completion,
        (c.completion is None && c.handlers_pending == 0 && events@.len() > 0 && events@.len()
            == c.puts_outstanding && all_put_failures(events@)) ==> (r.0.completion matches Some(
            PutCompletion::Failure(m),
        ) && m@ == events@.last()->PutFailed_1@),
{
    let ghost c0 = c;
    let ghost ev = events@;
    let mut c = c;
    let mut calls: Vec<HandlerCall> = Vec::new();
    let n = events.len();
    let mut i: usize = 0;
    proof {
        assert(ev.skip(0) =~= ev);
    }
    while i < n
        invariant
            n == ev.len(),
            events@ == ev,
            i <= n,
            c.wf(),
            c.same_put(&c0),
            events_ok(c.puts_outstanding as nat, c.handlers_pending as nat, ev.skip(i as int)),
            c.handlers_pending <= c0.handlers_pending + i,
            c.handlers_succeeded <= c0.handlers_succeeded + i,
            c.handlers_failed <= c0.handlers_failed + i,
            c0.handlers_pending + n < usize::MAX,
            c0.handlers_succeeded + n < usize::MAX,
            c0.handlers_failed + n < usize::MAX,
            calls@.len() == succeeded_ids(ev.subrange(0, i as int)).len(),
            forall|k: int|
                0 <= k < calls@.len() ==> {
                    &&& (#[trigger] calls@[k]).blobstore_id == succeeded_ids(
                        ev.subrange(0, i as int),
                    )[k]
                    &&& calls@[k].operation_key == c0.operation_key
                    &&& calls@[k].multiplex_id == c0.multiplex_id
                    &&& calls@[k].key@ == c0.key@
                },
            c.succeeded_puts@ == c0.succeeded_puts@ + succeeded_ids(ev.subrange(0, i as int)),
            c0.completion is Some ==> c.completion == c0.completion,
            (c0.completion is None && c0.handlers_pending == 0 && all_put_failures(
                ev.subrange(0, i as int),
            )) ==> {
                &&& c.puts_outstanding == c0.puts_outstanding - i
                &&& c.handlers_pending == 0
                &&& (i == 0 ==> c.completion is None)
                &&& (i > 0 && c.puts_outstanding > 0 ==> c.completion is None && (
                c.last_error matches Some(m) && m@ == ev[i - 1]->PutFailed_1@))
                &&& (i > 0 && c.puts_outstanding == 0 ==> (c.completion matches Some(
                    PutCompletion::Failure(m),
                ) && m@ == ev[i - 1]->PutFailed_1@))
            },
        decreases n - i,
    {
        proof {
            assert(ev.skip(i as int)[0] == ev[i as int]);
            assert(ev.skip(i as int).skip(1) =~= ev.skip(i + 1));
            assert(ev.subrange(0, i + 1).drop_last() =~= ev.subrange(0, i as int));
            assert(ev.subrange(0, i + 1).last() == ev[i as int]);
        }
        match &events[i] {
            PutEvent::PutSucceeded(id) => {
                let call = c.on_put_success(*id);
                calls.push(call);
            },
            PutEvent::PutFailed(_, message) => {
                c.on_put_failure(message.clone());
            },
            PutEvent::HandlerSucceeded => {
                c.on_handler_success();
            },
            PutEvent::HandlerFailed(message) => {
                c.on_handler_failure(message.clone());
            },
        }
        i = i + 1;
    }
    proof {
        assert(ev.subrange(0, n as int) =~= ev);
    }
    (c, calls)
}

/// A put that was declared successful had exactly one handler success at
/// declaration time, except when success was declared on the last upload
/// finishing with no failure observed, where it had none; every handler was
/// then still pending and ran detached.
pub proof fn lemma_put_success_handler_accounting(c: &PutCoordinator)
    requires
        c.wf(),
        c.completion matches Some(PutCompletion::Success),
    ensures
        c.completion_all_puts_clean@ ==> c.completion_handler_oks@ == 0,
        !c.completion_all_puts_clean@ ==> c.completion_handler_oks@ == 1,
{
}

} // verus!
