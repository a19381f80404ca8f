use talk_loco_client::SessionCore;
use talk_loco_client::SUBMISSION_QUEUE_CAPACITY;

#[test]
fn fresh_session_assigns_id_zero() {
    let mut core: SessionCore<&str> = SessionCore::new();
    assert_eq!(core.outstanding(), 0);
    assert!(!core.is_mid_write());
    let id = core.begin_send("slot a");
    assert_eq!(id, 0);
    assert!(core.is_mid_write());
}

#[test]
fn successful_writes_get_consecutive_ids() {
    let mut core: SessionCore<&str> = SessionCore::new();
    let a = core.begin_send("slot a");
    core.end_send_ok();
    let b = core.begin_send("slot b");
    core.end_send_ok();
    let c = core.begin_send("slot c");
    core.end_send_ok();
    assert_eq!((a, b, c), (0, 1, 2));
    assert_eq!(core.outstanding(), 3);
}

#[test]
fn failed_write_reuses_its_id() {
    let mut core: SessionCore<&str> = SessionCore::new();
    let a = core.begin_send("slot a");
    assert_eq!(a, 0);
    // The write fails: the slot comes back to be dropped and the id is
    // not consumed.
    let discarded = core.end_send_err();
    assert_eq!(discarded, Some("slot a"));
    assert_eq!(core.outstanding(), 0);
    let b = core.begin_send("slot b");
    assert_eq!(b, 0);
    core.end_send_ok();
    let c = core.begin_send("slot c");
    assert_eq!(c, 1);
}

#[test]
fn matching_reply_withdraws_the_slot_exactly_once() {
    let mut core: SessionCore<&str> = SessionCore::new();
    let id = core.begin_send("slot a");
    core.end_send_ok();
    // First frame with the id resolves the request...
    assert_eq!(core.take_pending(id), Some("slot a"));
    // ...a second frame with the same id matches nothing and is the
    // handler's.
    assert_eq!(core.take_pending(id), None);
    assert_eq!(core.outstanding(), 0);
}

#[test]
fn unmatched_frame_resolves_nothing() {
    let mut core: SessionCore<&str> = SessionCore::new();
    let id = core.begin_send("slot a");
    core.end_send_ok();
    // A frame with an id nobody is waiting on touches no entry.
    assert_eq!(core.take_pending(17), None);
    assert_eq!(core.outstanding(), 1);
    assert_eq!(core.take_pending(id), Some("slot a"));
}

#[test]
fn replies_match_their_own_request_in_any_order() {
    let mut core: SessionCore<&str> = SessionCore::new();
    let a = core.begin_send("slot a");
    core.end_send_ok();
    let b = core.begin_send("slot b");
    core.end_send_ok();
    let c = core.begin_send("slot c");
    core.end_send_ok();
    assert!(a != b && b != c && a != c);
    // Replies arrive in an order unrelated to submission.
    assert_eq!(core.take_pending(c), Some("slot c"));
    assert_eq!(core.take_pending(a), Some("slot a"));
    assert_eq!(core.take_pending(b), Some("slot b"));
    assert_eq!(core.outstanding(), 0);
}

#[test]
fn write_failure_discards_only_the_failed_request() {
    let mut core: SessionCore<&str> = SessionCore::new();
    let a = core.begin_send("slot a");
    core.end_send_ok();
    let b = core.begin_send("slot b");
    assert_eq!(core.end_send_err(), Some("slot b"));
    // The earlier request is still outstanding; the failed one is gone.
    assert_eq!(core.take_pending(b), None);
    assert_eq!(core.take_pending(a), Some("slot a"));
}

#[test]
fn reply_then_failure_then_reused_id() {
    // Submit command A; its write succeeds under id 0 and a reply with
    // id 0 resolves it. Submit command B; its write fails, so its slot is
    // dropped unsignalled. The subsequent command C reuses B's id.
    let mut core: SessionCore<&str> = SessionCore::new();
    let a = core.begin_send("slot a");
    assert_eq!(a, 0);
    core.end_send_ok();
    assert_eq!(core.take_pending(0), Some("slot a"));

    let b = core.begin_send("slot b");
    assert_eq!(b, 1);
    assert_eq!(core.end_send_err(), Some("slot b"));

    let c = core.begin_send("slot c");
    assert_eq!(c, 1);
    core.end_send_ok();
    assert_eq!(core.take_pending(1), Some("slot c"));
}

#[test]
fn dropped_awaitable_discards_late_reply() {
    let mut core: SessionCore<tokio::sync::oneshot::Sender<&str>> = SessionCore::new();
    let (tx, rx) = tokio::sync::oneshot::channel();
    let id = core.begin_send(tx);
    core.end_send_ok();
    // The caller abandons its awaitable before the reply arrives.
    drop(rx);
    // The reply still matches the live entry, so it is routed to the
    // slot, not to the handler...
    let slot = core.take_pending(id);
    assert!(slot.is_some());
    // ...and signalling the dead receiver discards it without effect.
    assert!(slot.unwrap().send("late reply").is_err());
    // The request vacated its table entry; nothing is outstanding.
    assert!(core.take_pending(id).is_none());
    assert_eq!(core.outstanding(), 0);
}

#[test]
fn submission_queue_admits_its_capacity_and_no_more() {
    // The facade's submission queue is bounded: with the queue full and
    // undrained, one more submission must wait until a slot frees.
    let (sender, mut receiver) = tokio::sync::mpsc::channel::<u32>(SUBMISSION_QUEUE_CAPACITY);
    for n in 0..SUBMISSION_QUEUE_CAPACITY {
        assert!(sender.try_send(n as u32).is_ok());
    }
    assert!(sender.try_send(999).is_err());
    // Draining one request frees one submission slot.
    assert_eq!(receiver.blocking_recv(), Some(0));
    assert!(sender.try_send(999).is_ok());
}
