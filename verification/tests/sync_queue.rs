use multiplexedblob::base::MultiplexedBlobstoreBase;
use multiplexedblob::handler::SyncQueuePutHandler;
use multiplexedblob::handler::run_put_handlers;
use multiplexedblob::ids::BlobstoreId;
use multiplexedblob::ids::MultiplexId;
use multiplexedblob::ids::OperationKey;
use multiplexedblob::put::PutEvent;
use multiplexedblob::queue::BlobstoreSyncQueue;
use multiplexedblob::queue::BlobstoreSyncQueueEntry;
use multiplexedblob::queue::WRITE_BUFFER_SIZE;
use multiplexedblob::queue::aggregate_batch_results;
use multiplexedblob::queue::sql_like_match;

fn entry(key: &str, backend: u64, multiplex: u64, ts: i64, op: u128) -> BlobstoreSyncQueueEntry {
    BlobstoreSyncQueueEntry::new(
        key.to_owned(),
        BlobstoreId(backend),
        MultiplexId(multiplex),
        ts,
        OperationKey(op),
    )
}

#[test]
fn add_assigns_unique_increasing_ids() {
    let mut q = BlobstoreSyncQueue::new();
    q.add(entry("a", 1, 1, 10, 100));
    q.add_many(vec![entry("b", 2, 1, 11, 100), entry("c", 1, 2, 12, 200)]);
    let rows_a = q.get(&"a".to_owned());
    let rows_b = q.get(&"b".to_owned());
    let rows_c = q.get(&"c".to_owned());
    assert_eq!(rows_a.len(), 1);
    assert_eq!(rows_b.len(), 1);
    assert_eq!(rows_c.len(), 1);
    assert_eq!(rows_a[0].id, Some(0));
    assert_eq!(rows_b[0].id, Some(1));
    assert_eq!(rows_c[0].id, Some(2));
    assert_eq!(rows_b[0].blobstore_id, BlobstoreId(2));
    assert_eq!(rows_c[0].multiplex_id, MultiplexId(2));
}

#[test]
fn get_returns_rows_across_multiplexes() {
    let mut q = BlobstoreSyncQueue::new();
    q.add(entry("k", 1, 1, 10, 100));
    q.add(entry("k", 2, 2, 11, 200));
    q.add(entry("other", 3, 1, 12, 300));
    let rows = q.get(&"k".to_owned());
    assert_eq!(rows.len(), 2);
    assert_eq!(rows[0].operation_key, OperationKey(100));
    assert_eq!(rows[1].operation_key, OperationKey(200));
}

#[test]
fn del_requires_assigned_ids() {
    let mut q = BlobstoreSyncQueue::new();
    q.add(entry("k", 1, 1, 10, 100));
    let unassigned = vec![entry("k", 1, 1, 10, 100)];
    let err = q.del(&unassigned).unwrap_err();
    assert_eq!(
        err,
        "BlobstoreSyncQueueEntry must contain `id` to be able to delete it"
    );
    // Nothing was deleted by the failed call.
    assert_eq!(q.get(&"k".to_owned()).len(), 1);
}

#[test]
fn del_removes_exactly_the_named_rows() {
    let mut q = BlobstoreSyncQueue::new();
    q.add(entry("k", 1, 1, 10, 100));
    q.add(entry("k", 2, 1, 11, 100));
    q.add(entry("k", 3, 1, 12, 100));
    let rows = q.get(&"k".to_owned());
    let victims = vec![rows[0].duplicate(), rows[2].duplicate()];
    assert!(q.del(&victims).is_ok());
    let left = q.get(&"k".to_owned());
    assert_eq!(left.len(), 1);
    assert_eq!(left[0].blobstore_id, BlobstoreId(2));
}

#[test]
fn iter_returns_a_closed_set_of_two_operations() {
    // Three operations of three rows each, all old enough: asking for two
    // operations returns six rows covering exactly two operation keys.
    let mut q = BlobstoreSyncQueue::new();
    for (op, key) in [(100u128, "x"), (200, "y"), (300, "z")] {
        for backend in 1..=3u64 {
            q.add(entry(key, backend, 5, 10, op));
        }
    }
    let rows = q.iter(None, MultiplexId(5), 50, 2);
    assert_eq!(rows.len(), 6);
    let mut ops: Vec<u128> = rows.iter().map(|r| r.operation_key.0).collect();
    ops.sort();
    ops.dedup();
    assert_eq!(ops, vec![100, 200]);
    assert!(rows.iter().all(|r| r.multiplex_id == MultiplexId(5)));
}

#[test]
fn iter_respects_multiplex_age_and_pattern() {
    let mut q = BlobstoreSyncQueue::new();
    q.add(entry("repo0001.alias", 1, 5, 10, 100));
    q.add(entry("repo0001.content", 1, 5, 99, 200));
    q.add(entry("elsewhere", 1, 5, 10, 300));
    q.add(entry("repo0001.alias", 1, 6, 10, 400));

    // Too young rows and rows of other multiplexes select nothing.
    let rows = q.iter(None, MultiplexId(5), 50, 10);
    let mut ops: Vec<u128> = rows.iter().map(|r| r.operation_key.0).collect();
    ops.sort();
    assert_eq!(ops, vec![100, 300]);

    // A pattern narrows the selected operations.
    let like = "repo0001%".to_owned();
    let rows = q.iter(Some(&like), MultiplexId(5), 50, 10);
    let ops: Vec<u128> = rows.iter().map(|r| r.operation_key.0).collect();
    assert_eq!(ops, vec![100]);
}

#[test]
fn iter_includes_siblings_of_selected_operations() {
    // A selected operation drags in its sibling rows of the same multiplex,
    // even those the predicates alone would not select.
    let mut q = BlobstoreSyncQueue::new();
    q.add(entry("old", 1, 5, 10, 100));
    q.add(entry("young-sibling", 2, 5, 99, 100));
    let rows = q.iter(None, MultiplexId(5), 50, 10);
    assert_eq!(rows.len(), 2);
    assert!(rows.iter().any(|r| r.blobstore_key == "young-sibling"));
}

#[test]
fn like_patterns_match_byte_wise() {
    assert!(sql_like_match("repo%", "repo0001.alias"));
    assert!(!sql_like_match("repo%", "other"));
    assert!(sql_like_match("r_po", "repo"));
    assert!(!sql_like_match("r_po", "repoo"));
    assert!(sql_like_match("%", ""));
    assert!(sql_like_match("%alias", "repo.alias"));
    assert!(!sql_like_match("", "x"));
    assert!(sql_like_match("a%b%c", "a-xx-b-yy-c"));
}

#[test]
fn batch_outcomes_aggregate_to_the_first_failure() {
    let all_ok: Vec<Result<(), String>> = vec![Ok(()), Ok(())];
    assert!(aggregate_batch_results(&all_ok).is_ok());

    let mixed: Vec<Result<(), String>> =
        vec![Ok(()), Err("failed to insert".to_owned()), Err("later".to_owned())];
    assert_eq!(aggregate_batch_results(&mixed), Err("failed to insert".to_owned()));

    assert_eq!(WRITE_BUFFER_SIZE, 5000);
}

#[test]
fn put_quiescence_leaves_one_row_per_acknowledged_backend() {
    // A put where two backends ack and one fails: after the detached
    // handlers have run, the queue holds one row per acked backend, all
    // sharing the put's operation key.
    let base = MultiplexedBlobstoreBase::new(
        MultiplexId(7),
        vec![BlobstoreId(1), BlobstoreId(2), BlobstoreId(3)],
        100,
    );
    let events = vec![
        PutEvent::PutSucceeded(BlobstoreId(1)),
        PutEvent::HandlerSucceeded,
        PutEvent::PutSucceeded(BlobstoreId(2)),
        PutEvent::PutFailed(BlobstoreId(3), "gone".to_owned()),
        PutEvent::HandlerSucceeded,
    ];
    let (c, calls) = base.put("k".to_owned(), &events);
    let mut q = BlobstoreSyncQueue::new();
    run_put_handlers(&mut q, &calls, 1234);
    let rows = q.get(&"k".to_owned());
    assert_eq!(rows.len(), 2);
    let mut backends: Vec<u64> = rows
        .iter()
        .filter(|r| r.operation_key == c.operation_key)
        .map(|r| r.blobstore_id.0)
        .collect();
    backends.sort();
    assert_eq!(backends, vec![1, 2]);
    assert!(rows.iter().all(|r| r.timestamp == 1234 && r.id.is_some()));
}

#[test]
fn default_handler_records_one_row() {
    let mut handler = SyncQueuePutHandler::new(BlobstoreSyncQueue::new());
    let op = OperationKey::gen();
    let r = handler.record(BlobstoreId(9), MultiplexId(7), &op, &"k".to_owned(), 42);
    assert!(r.is_ok());
    let q = handler.into_queue();
    let rows = q.get(&"k".to_owned());
    assert_eq!(rows.len(), 1);
    assert_eq!(rows[0].blobstore_id, BlobstoreId(9));
    assert_eq!(rows[0].operation_key, op);
    assert_eq!(rows[0].timestamp, 42);
}
