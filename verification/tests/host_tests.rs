use soradyne_core::flow::host::{
    HostAssignment, HostFailoverPolicy, HostCandidate, select_first_eligible, select_preferred, select_best_connected,
};
use soradyne_core::flow::error::FlowError;
use uuid::Uuid;

fn id() -> u128 {
    Uuid::new_v4().as_u128()
}

fn can_host(id: u128) -> HostCandidate {
    HostCandidate { id, can_host_drip: true, edge_count: 0 }
}

fn cannot_host(id: u128) -> HostCandidate {
    HostCandidate { id, can_host_drip: false, edge_count: 0 }
}

#[test]
fn test_host_selection_first_eligible() {
    let id_a = id();
    let id_b = id();
    let pieces = vec![cannot_host(id_a), can_host(id_b)];
    assert_eq!(select_first_eligible(&pieces), Some(id_b));
}

#[test]
fn test_host_selection_first_eligible_none() {
    let pieces = vec![cannot_host(id())];
    assert!(select_first_eligible(&pieces).is_none());
}

#[test]
fn test_host_selection_preferred() {
    let preferred = id();
    let other = id();
    let pieces = vec![can_host(preferred), can_host(other)];
    assert_eq!(select_preferred(preferred, &pieces), Some(preferred));
}

#[test]
fn test_host_selection_preferred_fallback() {
    let preferred = id();
    let other = id();
    let pieces = vec![can_host(other)];
    assert_eq!(select_preferred(preferred, &pieces), Some(other));
}

#[test]
fn preferred_but_unable_falls_back() {
    let preferred = id();
    let other = id();
    let pieces = vec![cannot_host(preferred), can_host(other)];
    assert_eq!(select_preferred(preferred, &pieces), Some(other));
    assert_eq!(select_preferred(preferred, &[cannot_host(preferred)]), None);
}

#[test]
fn best_connected_takes_most_edges() {
    let a = id();
    let b = id();
    let c = id();
    let pieces = vec![
        HostCandidate { id: a, can_host_drip: true, edge_count: 2 },
        HostCandidate { id: b, can_host_drip: false, edge_count: 9 },
        HostCandidate { id: c, can_host_drip: true, edge_count: 5 },
    ];
    assert_eq!(select_best_connected(&pieces), Some(c));
    // Ties keep the first.
    let pieces = vec![
        HostCandidate { id: a, can_host_drip: true, edge_count: 3 },
        HostCandidate { id: c, can_host_drip: true, edge_count: 3 },
    ];
    assert_eq!(select_best_connected(&pieces), Some(a));
    assert_eq!(select_best_connected(&[cannot_host(a)]), None);
}

#[test]
fn test_host_assignment_accept_higher_epoch() {
    let mut ha = HostAssignment::new();
    let host_a = id();
    let host_b = id();

    assert!(ha.accept_announcement(host_a, 1, 100));
    assert_eq!(ha.current_host, Some(host_a));
    assert_eq!(ha.epoch, 1);

    assert!(ha.accept_announcement(host_b, 2, 200));
    assert_eq!(ha.current_host, Some(host_b));
    assert_eq!(ha.epoch, 2);
}

#[test]
fn test_host_assignment_reject_lower_epoch() {
    let mut ha = HostAssignment::new();
    let host_a = id();
    let host_b = id();

    ha.accept_announcement(host_a, 5, 100);

    assert!(!ha.accept_announcement(host_b, 3, 200));
    assert_eq!(ha.current_host, Some(host_a));
    assert_eq!(ha.epoch, 5);
}

#[test]
fn test_host_assignment_reject_equal_epoch() {
    let mut ha = HostAssignment::new();
    let host_a = id();
    let host_b = id();

    ha.accept_announcement(host_a, 5, 100);

    assert!(!ha.accept_announcement(host_b, 5, 200));
    assert_eq!(ha.current_host, Some(host_a));
}

#[test]
fn test_host_assignment_timeout() {
    let mut ha = HostAssignment::new();
    ha.accept_announcement(id(), 1, 1_000);

    // One nanosecond later: not timed out after 10 s, timed out after zero.
    assert!(!ha.is_host_timed_out(10_000_000_000, 1_001));
    assert!(ha.is_host_timed_out(0, 1_001));
}

#[test]
fn timeout_without_sighting() {
    let mut ha = HostAssignment::new();
    assert!(!ha.is_host_timed_out(0, 5));
    ha.current_host = Some(7);
    assert!(ha.is_host_timed_out(1_000, 5));
    ha.touch(5);
    assert!(!ha.is_host_timed_out(1_000, 5));
    assert!(ha.is_host_timed_out(1_000, 1_006));
}

#[test]
fn test_immediate_failover_clears_host() {
    let mut ha = HostAssignment::new();
    ha.accept_announcement(id(), 3, 10);
    ha.handle_host_dropout(&HostFailoverPolicy::ImmediateFailover);
    assert_eq!(ha.current_host, None);
    assert_eq!(ha.epoch, 3);
}

#[test]
fn other_failover_policies_keep_host() {
    let host = id();
    for policy in [
        HostFailoverPolicy::GracefulFailover { grace_period_ms: 500 },
        HostFailoverPolicy::OfflineMerge,
        HostFailoverPolicy::WaitForHost,
    ] {
        let mut ha = HostAssignment::new();
        ha.accept_announcement(host, 1, 10);
        ha.handle_host_dropout(&policy);
        assert_eq!(ha.current_host, Some(host));
    }
}

#[test]
fn become_host_raises_epoch() {
    let me = id();
    let mut ha = HostAssignment::new();
    ha.accept_announcement(id(), 4, 1);
    assert_eq!(ha.become_host(me, 2), 5);
    assert!(ha.is_current_host(me));
    assert_eq!(ha.last_host_seen, Some(2));
}

#[test]
fn test_handoff_host_requires_being_host() {
    let me = id();
    let other = id();
    let mut ha = HostAssignment::new();
    match ha.handoff_host(me, other, 1) {
        Err(FlowError::NotHost(d)) => assert_eq!(d, me),
        r => panic!("unexpected {:?}", r),
    }
    assert_eq!(ha.epoch, 0);
    ha.become_host(me, 1);
    assert_eq!(ha.handoff_host(me, other, 2).unwrap(), 2);
    assert!(ha.is_current_host(other));
    assert!(!ha.is_current_host(me));
}

#[test]
fn highest_epoch_wins_in_any_order() {
    let a = id();
    let b = id();
    let c = id();
    let anns = [(a, 3u64), (b, 7u64), (c, 5u64)];
    let orders = [[0, 1, 2], [0, 2, 1], [1, 0, 2], [1, 2, 0], [2, 0, 1], [2, 1, 0]];
    for order in orders {
        let mut ha = HostAssignment::default();
        for (t, &k) in order.iter().enumerate() {
            ha.accept_announcement(anns[k].0, anns[k].1, t as u64);
        }
        assert_eq!(ha.epoch, 7);
        assert_eq!(ha.current_host, Some(b));
    }
}
