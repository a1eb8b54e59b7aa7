use soradyne_core::flow::error::FlowError;
use soradyne_core::flow::host::HostFailoverPolicy;
use soradyne_core::flow::replica::{require_messenger, KnownParties, OutboundQueue, ReplicaHost};

#[test]
fn waiting_for_host_holds_edits_back() {
    let mut r = ReplicaHost::new(1, HostFailoverPolicy::WaitForHost);
    match r.apply_edit(vec![1, 2]) {
        Err(FlowError::HostUnavailable(h)) => assert_eq!(h, 0),
        other => panic!("unexpected {:?}", other),
    }
    assert_eq!(r.pending_count(), 1);
    assert!(r.assignment().current_host.is_none());
}

#[test]
fn becoming_host_drains_held_edits_in_order() {
    let mut r = ReplicaHost::new(7, HostFailoverPolicy::WaitForHost);
    assert!(r.apply_edit(vec![1]).is_err());
    assert!(r.apply_edit(vec![2, 2]).is_err());
    let (epoch, drained) = r.become_host(100);
    assert_eq!(epoch, 1);
    assert_eq!(drained, vec![vec![1], vec![2, 2]]);
    assert_eq!(r.pending_count(), 0);
    assert!(r.is_current_host());
    assert_eq!(r.apply_edit(vec![3]).unwrap(), vec![3]);
    assert_eq!(r.pending_count(), 0);
}

#[test]
fn other_policies_apply_edits_at_once() {
    let mut r = ReplicaHost::new(1, HostFailoverPolicy::OfflineMerge);
    assert_eq!(r.apply_edit(vec![9]).unwrap(), vec![9]);
    assert_eq!(r.pending_count(), 0);
}

#[test]
fn parties_are_registered_once_and_never_self() {
    let mut p = KnownParties::new();
    assert!(!p.register("me", "me", 1));
    assert!(p.register("me", "dev_B", 2));
    assert!(!p.register("me", "dev_B", 3));
    assert_eq!(p.get("dev_B"), Some(2));
    assert_eq!(p.get("dev_C"), None);
}

#[test]
fn outbound_queue_clears_only_after_delivery() {
    let mut q = OutboundQueue::new();
    assert_eq!(q.record_delivery(true), None);
    q.enqueue(vec![1]);
    q.enqueue(vec![2]);
    assert_eq!(q.peek(), vec![vec![1], vec![2]]);
    assert_eq!(q.record_delivery(false), None);
    assert_eq!(q.len(), 2);
    assert_eq!(q.record_delivery(true), Some(2));
    assert_eq!(q.len(), 0);
}

#[test]
fn starting_sync_needs_a_messenger() {
    assert!(require_messenger(true).is_ok());
    assert!(matches!(require_messenger(false), Err(FlowError::SyncError(_))));
}
