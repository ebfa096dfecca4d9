use multiplexedblob::base::MultiplexedBlobstoreBase;
use multiplexedblob::blob::BlobstoreBytes;
use multiplexedblob::blob::BlobstoreGetData;
use multiplexedblob::blob::bytes_equal;
use multiplexedblob::errors::ErrorKind;
use multiplexedblob::fanout::GetResult;
use multiplexedblob::fanout::blobstore_get;
use multiplexedblob::fanout::inner_put;
use multiplexedblob::fanout::is_present_reduce;
use multiplexedblob::fanout::remap_timeout_result;
use multiplexedblob::ids::BlobstoreId;
use multiplexedblob::ids::MultiplexId;
use multiplexedblob::ids::OperationKey;
use multiplexedblob::put::PutCompletion;
use multiplexedblob::put::PutEvent;
use multiplexedblob::scrub::scrub_get_reduce;

fn data(bytes: &[u8], ctime: Option<i64>) -> BlobstoreGetData {
    BlobstoreGetData::new(BlobstoreBytes::from_vec(bytes.to_vec()), ctime)
}

fn base3() -> MultiplexedBlobstoreBase {
    MultiplexedBlobstoreBase::new(
        MultiplexId(7),
        vec![BlobstoreId(1), BlobstoreId(2), BlobstoreId(3)],
        100,
    )
}

#[test]
fn get_first_value_wins_and_ctime_is_stripped() {
    // A read race: the winner arrived first, a sibling errored later.
    let results = vec![
        (BlobstoreId(1), GetResult::Found(data(b"abc", Some(55)))),
        (BlobstoreId(3), GetResult::Failure("disk on fire".to_owned())),
        (BlobstoreId(2), GetResult::Found(data(b"abc", Some(77)))),
    ];
    let r = base3().get(&results);
    match r {
        Ok(Some(v)) => {
            assert_eq!(v.as_bytes().as_vec(), &b"abc".to_vec());
            assert!(v.ctime.is_none());
        },
        other => panic!("expected the winning value, got {:?}", other),
    }
}

#[test]
fn get_all_absent_is_none() {
    let results = vec![
        (BlobstoreId(1), GetResult::Absent),
        (BlobstoreId(2), GetResult::Absent),
        (BlobstoreId(3), GetResult::Absent),
    ];
    let r = base3().get(&results);
    assert!(matches!(r, Ok(None)));
}

#[test]
fn get_all_failed_names_every_backend() {
    let results = vec![
        (BlobstoreId(2), GetResult::Failure("two".to_owned())),
        (BlobstoreId(1), GetResult::Failure("one".to_owned())),
        (BlobstoreId(3), GetResult::Failure("three".to_owned())),
    ];
    let r = base3().get(&results);
    match r {
        Err(ErrorKind::AllFailed(m)) => {
            let mut ids: Vec<u64> = m.iter().map(|(id, _)| id.0).collect();
            ids.sort();
            assert_eq!(ids, vec![1, 2, 3]);
            assert_eq!(m[0].1, "two");
        },
        other => panic!("expected a total failure, got {:?}", other),
    }
}

#[test]
fn get_mixed_failure_and_absence() {
    let results = vec![
        (BlobstoreId(1), GetResult::Absent),
        (BlobstoreId(2), GetResult::Failure("boom".to_owned())),
        (BlobstoreId(3), GetResult::Absent),
    ];
    let r = blobstore_get(&results);
    match r {
        Err(ErrorKind::SomeFailedOthersNone(m)) => {
            assert_eq!(m.len(), 1);
            assert_eq!(m[0].0, BlobstoreId(2));
            assert_eq!(m[0].1, "boom");
        },
        other => panic!("expected a partial failure, got {:?}", other),
    }
}

#[test]
fn is_present_short_circuits_on_yes() {
    let results = vec![
        (BlobstoreId(1), Err("down".to_owned())),
        (BlobstoreId(2), Ok(true)),
        (BlobstoreId(3), Ok(false)),
    ];
    assert!(matches!(base3().is_present(&results), Ok(true)));
}

#[test]
fn is_present_no_and_all_failed() {
    let none = vec![
        (BlobstoreId(1), Ok(false)),
        (BlobstoreId(2), Ok(false)),
        (BlobstoreId(3), Ok(false)),
    ];
    assert!(matches!(is_present_reduce(&none), Ok(false)));

    let down = vec![
        (BlobstoreId(1), Err::<bool, String>("a".to_owned())),
        (BlobstoreId(2), Err("b".to_owned())),
        (BlobstoreId(3), Err("c".to_owned())),
    ];
    match is_present_reduce(&down) {
        Err(ErrorKind::AllFailed(m)) => assert_eq!(m.len(), 3),
        other => panic!("expected a total failure, got {:?}", other),
    }
}

#[test]
fn timeouts_map_to_the_fixed_error() {
    let timely: Result<Result<u32, String>, ()> = Ok(Ok(9));
    assert_eq!(remap_timeout_result(timely), Ok(9));

    let failed: Result<Result<u32, String>, ()> = Ok(Err("nope".to_owned()));
    assert_eq!(remap_timeout_result(failed), Err("nope".to_owned()));

    let late: Result<Result<u32, String>, ()> = Err(());
    assert_eq!(remap_timeout_result(late), Err("blobstore operation timeout".to_owned()));
}

#[test]
fn inner_put_tags_the_backend() {
    let acked: Result<Result<(), String>, ()> = Ok(Ok(()));
    assert_eq!(inner_put(BlobstoreId(4), acked), Ok(BlobstoreId(4)));

    let late: Result<Result<(), String>, ()> = Err(());
    assert_eq!(
        inner_put(BlobstoreId(4), late),
        Err("blobstore operation timeout".to_owned())
    );
}

#[test]
fn put_succeeds_once_a_handler_succeeds() {
    // One backend acks and its handler completes; a sibling is slow and one
    // errors, as in a write with one slow backend.
    let events = vec![
        PutEvent::PutSucceeded(BlobstoreId(1)),
        PutEvent::HandlerSucceeded,
        PutEvent::PutSucceeded(BlobstoreId(2)),
        PutEvent::PutFailed(BlobstoreId(3), "gone".to_owned()),
        PutEvent::HandlerSucceeded,
    ];
    let (c, calls) = base3().put("k".to_owned(), &events);
    assert!(matches!(c.completion, Some(PutCompletion::Success)));
    assert_eq!(c.handlers_succeeded, 2);
    assert_eq!(c.succeeded_puts, vec![BlobstoreId(1), BlobstoreId(2)]);
    assert_eq!(calls.len(), 2);
    assert!(!calls[0].operation_key.is_null());
    assert_eq!(calls[0].operation_key, calls[1].operation_key);
    assert_eq!(calls[0].blobstore_id, BlobstoreId(1));
    assert_eq!(calls[1].blobstore_id, BlobstoreId(2));
    assert_eq!(calls[0].multiplex_id, MultiplexId(7));
    assert_eq!(calls[0].key, "k");
}

#[test]
fn put_all_backends_failing_reports_the_last_error() {
    let events = vec![
        PutEvent::PutFailed(BlobstoreId(1), "one".to_owned()),
        PutEvent::PutFailed(BlobstoreId(2), "two".to_owned()),
        PutEvent::PutFailed(BlobstoreId(3), "three".to_owned()),
    ];
    let (c, calls) = base3().put("k".to_owned(), &events);
    assert!(calls.is_empty());
    match c.completion {
        Some(PutCompletion::Failure(m)) => assert_eq!(m, "three"),
        other => panic!("expected a failure, got {:?}", other),
    }
}

#[test]
fn put_all_acks_with_no_error_succeeds_before_any_handler() {
    let events = vec![
        PutEvent::PutSucceeded(BlobstoreId(1)),
        PutEvent::PutSucceeded(BlobstoreId(2)),
        PutEvent::PutSucceeded(BlobstoreId(3)),
    ];
    let (c, calls) = base3().put("k".to_owned(), &events);
    assert!(matches!(c.completion, Some(PutCompletion::Success)));
    assert_eq!(c.handlers_succeeded, 0);
    assert_eq!(c.handlers_pending, 3);
    assert_eq!(calls.len(), 3);
}

#[test]
fn put_write_order_is_strictly_increasing() {
    let base = base3();
    let mut c = base.start_put("k".to_owned());
    let first = c.next_write_order();
    let second = c.next_write_order();
    let third = c.next_write_order();
    assert_eq!((first, second, third), (1, 2, 3));
}

#[test]
fn scrub_value_mismatch() {
    // Two backends answer different bytes, one misses the item.
    let results = vec![
        (BlobstoreId(1), GetResult::Found(data(b"a", None))),
        (BlobstoreId(2), GetResult::Found(data(b"b", None))),
        (BlobstoreId(3), GetResult::Absent),
    ];
    match base3().scrub_get(&results) {
        Err(ErrorKind::ValueMismatch(answered, missing)) => {
            assert_eq!(answered, vec![BlobstoreId(1), BlobstoreId(2)]);
            assert_eq!(missing, vec![BlobstoreId(3)]);
        },
        other => panic!("expected a mismatch, got {:?}", other),
    }
}

#[test]
fn scrub_some_missing_item_is_recoverable() {
    let results = vec![
        (BlobstoreId(1), GetResult::Found(data(b"a", Some(9)))),
        (BlobstoreId(2), GetResult::Found(data(b"a", Some(11)))),
        (BlobstoreId(3), GetResult::Absent),
    ];
    match base3().scrub_get(&results) {
        Err(ErrorKind::SomeMissingItem(missing, Some(v))) => {
            assert_eq!(missing, vec![BlobstoreId(3)]);
            assert_eq!(v.as_bytes().as_vec(), &b"a".to_vec());
            // Scrub does not strip the creation timestamp; the first value won.
            assert_eq!(v.ctime, Some(9));
        },
        other => panic!("expected a recoverable miss, got {:?}", other),
    }
}

#[test]
fn scrub_all_absent_and_all_agreeing() {
    let absent = vec![
        (BlobstoreId(1), GetResult::Absent),
        (BlobstoreId(2), GetResult::Absent),
        (BlobstoreId(3), GetResult::Absent),
    ];
    assert!(matches!(base3().scrub_get(&absent), Ok(None)));

    let agreeing = vec![
        (BlobstoreId(1), GetResult::Found(data(b"z", None))),
        (BlobstoreId(2), GetResult::Found(data(b"z", None))),
        (BlobstoreId(3), GetResult::Found(data(b"z", None))),
    ];
    match base3().scrub_get(&agreeing) {
        Ok(Some(v)) => assert_eq!(v.as_bytes().as_vec(), &b"z".to_vec()),
        other => panic!("expected the agreed value, got {:?}", other),
    }
}

#[test]
fn scrub_without_any_success_is_a_total_failure() {
    let results = vec![
        (BlobstoreId(1), GetResult::Failure("x".to_owned())),
        (BlobstoreId(2), GetResult::Failure("y".to_owned())),
        (BlobstoreId(3), GetResult::Failure("z".to_owned())),
    ];
    match base3().scrub_get(&results) {
        Err(ErrorKind::AllFailed(m)) => assert_eq!(m.len(), 3),
        other => panic!("expected a total failure, got {:?}", other),
    }
    assert!(matches!(
        scrub_get_reduce(&Vec::new()),
        Err(ErrorKind::AllFailed(m)) if m.is_empty()
    ));
}

#[test]
fn a_timed_out_backend_does_not_block_a_read() {
    // One backend outran its deadline; its remapped error arrives first, and
    // the value another backend holds still wins.
    let late: Result<Result<Option<BlobstoreGetData>, String>, ()> = Err(());
    let timeout_message = match remap_timeout_result(late) {
        Err(m) => m,
        Ok(_) => panic!("a deadline expiry must map to an error"),
    };
    let results = vec![
        (BlobstoreId(3), GetResult::Failure(timeout_message.clone())),
        (BlobstoreId(1), GetResult::Found(data(b"abc", None))),
    ];
    match base3().get(&results) {
        Ok(Some(v)) => assert_eq!(v.as_bytes().as_vec(), &b"abc".to_vec()),
        other => panic!("expected the surviving value, got {:?}", other),
    }
    assert_eq!(timeout_message, "blobstore operation timeout");
}

#[test]
fn operation_keys_are_fresh_and_never_null() {
    let k = OperationKey::gen();
    assert!(!k.is_null());
    assert!(OperationKey(0).is_null());
}

#[test]
fn blob_bytes_compare_by_content() {
    let a = BlobstoreBytes::from_vec(vec![1, 2, 3]);
    let b = BlobstoreBytes::from_vec(vec![1, 2, 3]);
    let c = BlobstoreBytes::from_vec(vec![1, 2, 4]);
    assert!(bytes_equal(&a, &b));
    assert!(!bytes_equal(&a, &c));
    assert_eq!(a.len(), 3);

    let mut d = data(b"q", Some(3));
    d.remove_ctime();
    assert!(d.ctime.is_none());
    assert_eq!(d.into_bytes().into_vec(), vec![b'q']);
}
