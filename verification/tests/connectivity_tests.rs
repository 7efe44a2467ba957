//! Tests of the connectivity manager: tie-breaks, status transitions,
//! failure counting, pool refresh, and selection.

use node_core::connection::{ConnectionDirection, PeerConnection, PeerFeatures};
use node_core::connection_pool::ConnectionStatus;
use node_core::connectivity::{
    ConnectionManagerEvent, ConnectivityAction, ConnectivityConfig, ConnectivityEvent,
    ConnectivityManagerState, ConnectivitySelection, ConnectivityStatus, DialDecision,
};

fn conn(id: u64, node_id: u64, direction: ConnectionDirection) -> PeerConnection {
    PeerConnection::new(id, node_id, PeerFeatures::CommunicationNode, vec![1, 2, 3], direction)
}

fn client_conn(id: u64, node_id: u64) -> PeerConnection {
    PeerConnection::new(
        id,
        node_id,
        PeerFeatures::CommunicationClient,
        vec![9],
        ConnectionDirection::Inbound,
    )
}

fn has_action(actions: &[ConnectivityAction], wanted: &ConnectivityAction) -> bool {
    actions.iter().any(|a| a == wanted)
}

#[test]
fn tie_break_table_matches_rule() {
    let mgr = ConnectivityManagerState::new(ConnectivityConfig::default(), 1);
    let peer = 2u64;
    let inbound = conn(10, peer, ConnectionDirection::Inbound);
    let outbound = conn(11, peer, ConnectionDirection::Outbound);
    // Two inbound connections: the older one goes.
    assert!(mgr.tie_break_existing_connection(&inbound, &inbound));
    // Two outbound connections: the newer one goes.
    assert!(!mgr.tie_break_existing_connection(&outbound, &outbound));
    // Mixed: with our id 1 below the peer's 2, an existing inbound loses
    // to a new outbound, and an existing outbound survives a new inbound.
    assert!(mgr.tie_break_existing_connection(&inbound, &outbound));
    assert!(!mgr.tie_break_existing_connection(&outbound, &inbound));
    // The peer's endpoint, with the ids swapped, mirrors both decisions.
    let mgr_peer = ConnectivityManagerState::new(ConnectivityConfig::default(), 2);
    let peer_inbound = conn(20, 1, ConnectionDirection::Inbound);
    let peer_outbound = conn(21, 1, ConnectionDirection::Outbound);
    assert!(!mgr_peer.tie_break_existing_connection(&peer_inbound, &peer_outbound));
    assert!(mgr_peer.tie_break_existing_connection(&peer_outbound, &peer_inbound));
}

#[test]
fn connection_tie_break() {
    // Nodes 1 and 2 dial each other at the same time; both resolve the
    // duplicate onto the same wire: the connection node 1 dialled out.
    let linger = ConnectivityConfig::default().connection_tie_break_linger_secs;

    // At node 1 the inbound from node 2 landed first; the own outbound
    // resolves second and wins, closing the existing inbound.
    let mut a = ConnectivityManagerState::new(ConnectivityConfig::default(), 1);
    let inbound_at_a = conn(10, 2, ConnectionDirection::Inbound);
    a.handle_connection_manager_event(ConnectionManagerEvent::PeerConnected(inbound_at_a));
    let outbound_at_a = conn(11, 2, ConnectionDirection::Outbound);
    let actions = a.handle_connection_manager_event(ConnectionManagerEvent::PeerConnected(
        outbound_at_a,
    ));
    assert!(has_action(&actions, &ConnectivityAction::DelayedClose(10, linger)));
    assert!(has_action(
        &actions,
        &ConnectivityAction::Publish(ConnectivityEvent::PeerConnectionWillClose(
            2,
            ConnectionDirection::Inbound,
        )),
    ));
    let kept = a.pool.get_connection(2).unwrap();
    assert_eq!(kept.id, 11);
    assert_eq!(kept.direction, ConnectionDirection::Outbound);

    // At node 2, mirrored: the inbound from node 1 (the same wire node 1
    // kept) landed first and survives; the own outbound is closed.
    let mut b = ConnectivityManagerState::new(ConnectivityConfig::default(), 2);
    let inbound_at_b = conn(20, 1, ConnectionDirection::Inbound);
    b.handle_connection_manager_event(ConnectionManagerEvent::PeerConnected(inbound_at_b));
    let outbound_at_b = conn(21, 1, ConnectionDirection::Outbound);
    let actions = b.handle_connection_manager_event(ConnectionManagerEvent::PeerConnected(
        outbound_at_b,
    ));
    assert!(has_action(&actions, &ConnectivityAction::DelayedClose(21, linger)));
    let kept = b.pool.get_connection(1).unwrap();
    assert_eq!(kept.id, 20);
    assert_eq!(kept.direction, ConnectionDirection::Inbound);
}

#[test]
fn stale_connection_always_replaced() {
    let mut mgr = ConnectivityManagerState::new(ConnectivityConfig::default(), 1);
    let mut stale = conn(30, 2, ConnectionDirection::Outbound);
    stale.age_secs = 60;
    mgr.handle_connection_manager_event(ConnectionManagerEvent::PeerConnected(stale));
    // An outbound-versus-inbound pair with our id 1 below the peer's 2
    // would keep the existing connection, but staleness overrides that.
    let fresh = conn(31, 2, ConnectionDirection::Inbound);
    let linger = ConnectivityConfig::default().connection_tie_break_linger_secs;
    let actions = mgr.handle_connection_manager_event(ConnectionManagerEvent::PeerConnected(fresh));
    assert!(has_action(&actions, &ConnectivityAction::DelayedClose(30, linger)));
    assert_eq!(mgr.pool.get_connection(2).unwrap().id, 31);
}

#[test]
fn status_transitions_and_events() {
    let config = ConnectivityConfig { min_connectivity: 2, ..ConnectivityConfig::default() };
    let mut mgr = ConnectivityManagerState::new(config, 1);
    assert!(mgr.status.is_initializing());
    assert_eq!(mgr.status.num_connected_nodes(), 0);

    // One node: degraded.
    let actions = mgr.handle_connection_manager_event(ConnectionManagerEvent::PeerConnected(conn(
        1, 10,
        ConnectionDirection::Inbound,
    )));
    assert!(mgr.status.is_degraded());
    assert_eq!(mgr.status.num_connected_nodes(), 1);
    assert!(has_action(
        &actions,
        &ConnectivityAction::Publish(ConnectivityEvent::ConnectivityStateDegraded(1)),
    ));

    // Two nodes: online.
    let actions = mgr.handle_connection_manager_event(ConnectionManagerEvent::PeerConnected(conn(
        2, 11,
        ConnectionDirection::Outbound,
    )));
    assert!(mgr.status.is_online());
    assert!(has_action(
        &actions,
        &ConnectivityAction::Publish(ConnectivityEvent::ConnectivityStateOnline(2)),
    ));

    // Back to one: degraded again.
    let actions = mgr.handle_connection_manager_event(ConnectionManagerEvent::PeerDisconnected(11));
    assert!(has_action(
        &actions,
        &ConnectivityAction::Publish(ConnectivityEvent::PeerDisconnected(11)),
    ));
    assert!(mgr.status.is_degraded());

    // Losing the last node with no client connected: offline.
    let actions = mgr.handle_connection_manager_event(ConnectionManagerEvent::PeerDisconnected(10));
    assert!(has_action(
        &actions,
        &ConnectivityAction::Publish(ConnectivityEvent::ConnectivityStateOffline),
    ));
    assert!(mgr.status.is_offline());
}

#[test]
fn client_only_keeps_previous_status() {
    let config = ConnectivityConfig { min_connectivity: 1, ..ConnectivityConfig::default() };
    let mut mgr = ConnectivityManagerState::new(config, 1);
    mgr.handle_connection_manager_event(ConnectionManagerEvent::PeerConnected(conn(
        1, 10,
        ConnectionDirection::Inbound,
    )));
    assert!(mgr.status.is_online());
    // A client joins, the node leaves: no node is connected but a client
    // is, so the previous status is retained.
    mgr.handle_connection_manager_event(ConnectionManagerEvent::PeerConnected(client_conn(2, 20)));
    mgr.handle_connection_manager_event(ConnectionManagerEvent::PeerDisconnected(10));
    assert!(mgr.status.is_online());
}

#[test]
fn failure_counting_marks_peer_offline() {
    let config = ConnectivityConfig { max_failures_mark_offline: 2, ..ConnectivityConfig::default() };
    let mut mgr = ConnectivityManagerState::new(config, 1);
    // Leave the offline state first, since failures are ignored there.
    mgr.handle_connection_manager_event(ConnectionManagerEvent::PeerConnected(conn(
        1, 10,
        ConnectionDirection::Inbound,
    )));

    let actions =
        mgr.handle_connection_manager_event(ConnectionManagerEvent::PeerConnectFailed(20, false));
    assert!(!has_action(&actions, &ConnectivityAction::MarkPeerOffline(20)));
    assert!(has_action(
        &actions,
        &ConnectivityAction::Publish(ConnectivityEvent::PeerConnectFailed(20)),
    ));

    let actions =
        mgr.handle_connection_manager_event(ConnectionManagerEvent::PeerConnectFailed(20, false));
    assert!(has_action(&actions, &ConnectivityAction::MarkPeerOffline(20)));

    // A cancelled dial is not a failure.
    let actions =
        mgr.handle_connection_manager_event(ConnectionManagerEvent::PeerConnectFailed(30, true));
    assert!(!has_action(&actions, &ConnectivityAction::MarkPeerOffline(30)));

    // The offline event is published only on the online-to-offline edge.
    assert_eq!(
        ConnectivityManagerState::peer_offline_event(20, false),
        Some(ConnectivityEvent::PeerOffline(20))
    );
    assert_eq!(ConnectivityManagerState::peer_offline_event(20, true), None);
}

#[test]
fn refresh_cleans_and_reaps() {
    let config = ConnectivityConfig {
        reaper_min_inactive_age_secs: 100,
        ..ConnectivityConfig::default()
    };
    let mut mgr = ConnectivityManagerState::new(config, 1);
    mgr.handle_connection_manager_event(ConnectionManagerEvent::PeerConnected(conn(
        1, 10,
        ConnectionDirection::Inbound,
    )));
    let mut idle = conn(2, 11, ConnectionDirection::Outbound);
    idle.age_secs = 150;
    mgr.handle_connection_manager_event(ConnectionManagerEvent::PeerConnected(idle));
    mgr.handle_connection_manager_event(ConnectionManagerEvent::PeerConnectFailed(12, true));
    assert_eq!(mgr.pool.count_entries(), 3);

    let (to_reap, _ev) = mgr.refresh_connection_pool();
    // The failed record is drained; the idle old connection is reaped.
    assert_eq!(mgr.pool.count_entries(), 2);
    assert_eq!(mgr.pool.get_connection_status(12), ConnectionStatus::NotPresent);
    assert_eq!(to_reap, vec![11]);
}

#[test]
fn dial_reuses_live_connection() {
    let mut mgr = ConnectivityManagerState::new(ConnectivityConfig::default(), 1);
    assert_eq!(mgr.dial_action(10), DialDecision::Dial);
    mgr.handle_connection_manager_event(ConnectionManagerEvent::PeerConnected(conn(
        1, 10,
        ConnectionDirection::Inbound,
    )));
    assert_eq!(mgr.dial_action(10), DialDecision::UseExisting);
    mgr.handle_connection_manager_event(ConnectionManagerEvent::PeerDisconnected(10));
    assert_eq!(mgr.dial_action(10), DialDecision::Dial);
}

#[test]
fn selection_variants() {
    let mut mgr = ConnectivityManagerState::new(ConnectivityConfig::default(), 1);
    mgr.handle_connection_manager_event(ConnectionManagerEvent::PeerConnected(conn(
        1, 0x10,
        ConnectionDirection::Inbound,
    )));
    mgr.handle_connection_manager_event(ConnectionManagerEvent::PeerConnected(conn(
        2, 0x11,
        ConnectionDirection::Inbound,
    )));
    mgr.handle_connection_manager_event(ConnectionManagerEvent::PeerConnected(client_conn(
        3, 0x20,
    )));

    let mut all = mgr.select_connections(ConnectivitySelection::All, 0);
    all.sort();
    assert_eq!(all, vec![0x10, 0x11, 0x20]);
    let nodes = mgr.select_connections(ConnectivitySelection::AllNodes, 0);
    assert_eq!(nodes, vec![0x10, 0x11]);
    let clients = mgr.select_connections(ConnectivitySelection::AllClients, 0);
    assert_eq!(clients, vec![0x20]);

    let closest = mgr.select_connections(ConnectivitySelection::ClosestTo(0x11, 2), 0);
    assert_eq!(closest.len(), 2);
    assert_eq!(closest[0], 0x11);

    let random = mgr.select_connections(ConnectivitySelection::Random(2), 7);
    assert_eq!(random.len(), 2);
    for id in &random {
        assert!(all.contains(id));
    }
}

#[test]
fn ban_and_disconnect_all() {
    let mut mgr = ConnectivityManagerState::new(ConnectivityConfig::default(), 1);
    mgr.handle_connection_manager_event(ConnectionManagerEvent::PeerConnected(conn(
        1, 10,
        ConnectionDirection::Inbound,
    )));
    let actions = mgr.ban_peer(10);
    assert!(has_action(
        &actions,
        &ConnectivityAction::Publish(ConnectivityEvent::PeerBanned(10)),
    ));
    assert!(has_action(&actions, &ConnectivityAction::Disconnect(10)));
    // Banning an unknown peer publishes the ban but disconnects nothing.
    let actions = mgr.ban_peer(99);
    assert!(!has_action(&actions, &ConnectivityAction::Disconnect(99)));

    let ids = mgr.disconnect_all();
    assert_eq!(ids, vec![10]);
    assert_eq!(mgr.pool.count_entries(), 0);
}

#[test]
fn num_connected_nodes_reads_status() {
    assert_eq!(ConnectivityStatus::Initializing.num_connected_nodes(), 0);
    assert_eq!(ConnectivityStatus::Offline.num_connected_nodes(), 0);
    assert_eq!(ConnectivityStatus::Online(4).num_connected_nodes(), 4);
    assert_eq!(ConnectivityStatus::Degraded(2).num_connected_nodes(), 2);
}
