use soradyne_core::flow::error::FlowError;
use soradyne_core::flow::host::HostFailoverPolicy;
use soradyne_core::flow::sync::{
    admit_edit, peers_to_greet, route_inbound, InboundAction, OnlinePiece, SyncMessageKind,
};

#[test]
fn wait_for_host_refuses_edits_off_host() {
    match admit_edit(&HostFailoverPolicy::WaitForHost, false, Some(42)) {
        Err(FlowError::HostUnavailable(h)) => assert_eq!(h, 42),
        other => panic!("unexpected {:?}", other),
    }
    match admit_edit(&HostFailoverPolicy::WaitForHost, false, None) {
        Err(FlowError::HostUnavailable(h)) => assert_eq!(h, 0),
        other => panic!("unexpected {:?}", other),
    }
    assert!(admit_edit(&HostFailoverPolicy::WaitForHost, true, Some(1)).is_ok());
}

#[test]
fn other_policies_admit_edits_anywhere() {
    assert!(admit_edit(&HostFailoverPolicy::OfflineMerge, false, None).is_ok());
    assert!(admit_edit(&HostFailoverPolicy::ImmediateFailover, false, Some(3)).is_ok());
    assert!(admit_edit(&HostFailoverPolicy::GracefulFailover { grace_period_ms: 10 }, false, Some(3)).is_ok());
}

#[test]
fn inbound_messages_of_other_flows_are_ignored() {
    assert_eq!(route_inbound(1, true, 9, 2, SyncMessageKind::OperationBatch), InboundAction::Ignore);
    assert_eq!(route_inbound(1, false, 9, 1, SyncMessageKind::OperationBatch), InboundAction::Ignore);
}

#[test]
fn inbound_messages_are_routed_by_kind() {
    assert_eq!(
        route_inbound(1, true, 9, 1, SyncMessageKind::HorizonExchange),
        InboundAction::SendMissingOps { to: 9 }
    );
    assert_eq!(route_inbound(1, true, 9, 1, SyncMessageKind::OperationBatch), InboundAction::ApplyOps);
    assert_eq!(
        route_inbound(1, true, 9, 1, SyncMessageKind::HostAnnouncement { host_id: 5, epoch: 3 }),
        InboundAction::AcceptHost { host_id: 5, epoch: 3 }
    );
}

#[test]
fn only_new_direct_peers_are_greeted() {
    let online = vec![
        OnlinePiece { id: 1, direct: true },
        OnlinePiece { id: 2, direct: true },
        OnlinePiece { id: 3, direct: false },
        OnlinePiece { id: 4, direct: true },
        OnlinePiece { id: 5, direct: true },
    ];
    assert_eq!(peers_to_greet(1, &online, &vec![4]), vec![2, 5]);
    assert_eq!(peers_to_greet(9, &online, &vec![]), vec![1, 2, 4, 5]);
}
