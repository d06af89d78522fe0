use powerfs_fuse::client_cap::{
    process_recall, CapSet, CapWaiters, ClientCap, RecallAction,
};

#[test]
fn test_cap_grant_and_recall() {
    let mut cap = ClientCap::new(1, "tok-1".into(), CapSet::exclusive(), 1, true, 100);
    assert!(cap.can_cache_writes());
    assert!(cap.can_modify_meta());

    // A write marks CAP_W dirty.
    cap.mark_dirty(CapSet::cap_w());

    // The server recalls CAP_W and CAP_X.
    let action = process_recall(&mut cap, CapSet::cap_r(), 2);
    match action {
        RecallAction::FlushThenAck { flushing_caps } => {
            assert!(flushing_caps.contains(CapSet::cap_w()));
        }
        _ => panic!("expected FlushThenAck because CAP_W was dirty"),
    }

    // After the flush nothing is on its way any more.
    cap.mark_flushed();
    assert!(!cap.can_cache_writes());
    assert!(cap.can_cache_reads());
}

#[test]
fn test_immediate_ack_for_read_only_cap() {
    let mut cap = ClientCap::new(2, "tok-2".into(), CapSet::cap_r(), 1, false, 200);

    // No dirty data.
    let action = process_recall(&mut cap, CapSet::none(), 2);
    assert!(matches!(action, RecallAction::ImmediateAck));
}

#[test]
fn test_upgrade_restores_exclusive() {
    let mut cap = ClientCap::new(3, "tok-3".into(), CapSet::cap_r(), 1, true, 300);
    assert!(!cap.can_cache_writes());

    // The server grants CAP_W and CAP_X again.
    cap.apply_upgrade(CapSet::cap_w().union(CapSet::cap_x()), 2, 301);
    assert!(cap.can_cache_writes());
    assert!(cap.can_modify_meta());
}

#[test]
fn test_cap_waiters() {
    let mut waiters = CapWaiters::new();
    let rx = waiters.wait_for_cap(42);
    waiters.notify(42, CapSet::exclusive());
    let issued = rx.blocking_recv().unwrap();
    assert!(issued.is_exclusive());
}

#[test]
fn waiters_get_what_was_issued_and_only_their_inode() {
    let mut waiters = CapWaiters::new();
    let a = waiters.wait_for_cap(1);
    let b = waiters.wait_for_cap(1);
    let mut c = waiters.wait_for_cap(2);
    waiters.notify(1, CapSet::cap_r());
    assert_eq!(a.blocking_recv().unwrap(), CapSet::cap_r());
    assert_eq!(b.blocking_recv().unwrap(), CapSet::cap_r());
    assert!(c.try_recv().is_err());
    assert_eq!(waiters.take_waiters(1).len(), 0);
    assert_eq!(waiters.take_waiters(2).len(), 1);
}

#[test]
fn cap_sets_behave_as_sets() {
    let rw = CapSet::cap_r().union(CapSet::cap_w());
    assert!(rw.contains(CapSet::cap_r()));
    assert!(!rw.contains(CapSet::exclusive()));
    assert!(rw.has_any(CapSet::exclusive()));
    assert!(!rw.has_any(CapSet::cap_x()));
    assert_eq!(rw.remove(CapSet::cap_r()), CapSet::cap_w());
    assert_eq!(rw.intersection(CapSet::cap_w()), CapSet::cap_w());
    assert!(CapSet::none().is_empty());
    assert!(rw.union(CapSet::cap_x()).is_exclusive());
}

#[test]
fn recall_moves_dirty_bits_to_flushing() {
    let mut cap = ClientCap::new(1, "t".into(), CapSet::exclusive(), 1, true, 1);
    cap.mark_dirty(CapSet::cap_x());
    assert_eq!(cap.issued_non_dirty(), CapSet::cap_r().union(CapSet::cap_w()));
    let recalled = cap.apply_recall(CapSet::cap_r(), 9);
    assert_eq!(recalled, CapSet::cap_w().union(CapSet::cap_x()));
    assert_eq!(cap.issued, CapSet::cap_r());
    assert_eq!(cap.implemented, CapSet::cap_r());
    assert_eq!(cap.epoch, 9);
}

#[test]
fn grant_returns_what_was_issued_before() {
    let mut cap = ClientCap::new(1, "t".into(), CapSet::cap_r(), 1, true, 1);
    assert_eq!(cap.apply_grant(CapSet::exclusive(), 2, 3), CapSet::cap_r());
    assert!(cap.can_cache_writes());
    assert_eq!(cap.clone().seq, 2);
}

#[test]
fn wakeups_pair_each_waiter_with_the_caps() {
    let mut waiters = CapWaiters::new();
    let first = waiters.wait_for_cap(7);
    let second = waiters.wait_for_cap(7);
    let mut pairs = waiters.wakeups(7, CapSet::cap_w());
    assert_eq!(pairs.len(), 2);
    let (tx, caps) = pairs.pop_front().unwrap();
    tx.send(caps).unwrap();
    assert_eq!(first.blocking_recv().unwrap(), CapSet::cap_w());
    drop(pairs);
    assert!(second.blocking_recv().is_err());
    assert_eq!(waiters.take_waiters(7).len(), 0);
}
