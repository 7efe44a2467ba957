//! The connectivity manager: tracks every peer connection's state, resolves
//! duplicate connections deterministically, reaps idle connections, counts
//! consecutive dial failures, and computes the node's connectivity status.
//!
//! The manager is pure state: it consumes connection-manager events and
//! requests, mutates its pool and counters, and answers with the actions
//! (dial cancellations, delayed closes, events to publish) that the
//! asynchronous shell around it must perform.

use vstd::prelude::*;
use crate::connection::{ConnectionDirection, PeerConnection};
use crate::connection_pool::{
    count_connected_clients_upto, count_connected_nodes_upto, find_node, is_connected_client,
    is_connected_node, ConnectionPool, ConnectionStatus, PeerConnectionState,
};

verus! {

/// Age in seconds from which an existing connection counts as stale when
/// the same peer dials again.
pub const STALE_CONNECTION_AGE_SECS: u64 = 60;

/// The node's aggregate connectivity.
#[derive(Debug, Clone, Copy, PartialEq, Eq, Structural)]
pub enum ConnectivityStatus {
    /// The manager has not yet evaluated the pool.
    Initializing,
    /// At least the configured minimum of nodes is connected.
    Online(usize),
    /// Some nodes are connected, but fewer than the minimum.
    Degraded(usize),
    /// No node and no client is connected.
    Offline,
}

impl ConnectivityStatus {
    /// The number of connected nodes the status reports.
    pub open spec fn num_connected_nodes_spec(&self) -> usize {
        match self {
            ConnectivityStatus::Online(n) => *n,
            ConnectivityStatus::Degraded(n) => *n,
            _ => 0,
        }
    }

    /// Returns the number of connected nodes this status reports; zero
    /// while initializing or offline.
    pub fn num_connected_nodes(&self) -> (r: usize)
        ensures
            r == self.num_connected_nodes_spec(),
    {
        match self {
            ConnectivityStatus::Initializing => 0,
            ConnectivityStatus::Offline => 0,
            ConnectivityStatus::Online(n) => *n,
            ConnectivityStatus::Degraded(n) => *n,
        }
    }

    /// Reports whether the status is `Offline`.
    pub fn is_offline(&self) -> (r: bool)
        ensures
            r == (*self is Offline),
    {
        match self {
            ConnectivityStatus::Offline => true,
            _ => false,
        }
    }

    /// Reports whether the status is `Online`.
    pub fn is_online(&self) -> (r: bool)
        ensures
            r == (*self is Online),
    {
        match self {
            ConnectivityStatus::Online(_) => true,
            _ => false,
        }
    }

    /// Reports whether the status is `Degraded`.
    pub fn is_degraded(&self) -> (r: bool)
        ensures
            r == (*self is Degraded),
    {
        match self {
            ConnectivityStatus::Degraded(_) => true,
            _ => false,
        }
    }

    /// Reports whether the status is `Initializing`.
    pub fn is_initializing(&self) -> (r: bool)
        ensures
            r == (*self is Initializing),
    {
        match self {
            ConnectivityStatus::Initializing => true,
            _ => false,
        }
    }
}

impl Default for ConnectivityStatus {
    /// A fresh manager starts initializing.
    fn default() -> (r: ConnectivityStatus)
        ensures
            r is Initializing,
    {
        ConnectivityStatus::Initializing
    }
}

/// Configuration of the connectivity manager.
#[derive(Debug, Clone, Copy, PartialEq, Eq, Structural)]
pub struct ConnectivityConfig {
    /// Connected nodes needed to count as online.
    pub min_connectivity: usize,
    /// Seconds between pool refresh ticks.
    pub connection_pool_refresh_interval_secs: u64,
    /// Minimum idle age, in seconds, before a connection is reaped.
    pub reaper_min_inactive_age_secs: u64,
    /// Whether idle connections are reaped at all.
    pub is_connection_reaping_enabled: bool,
    /// Consecutive dial failures after which a peer is marked offline.
    pub max_failures_mark_offline: usize,
    /// Seconds the loser of a connection tie-break lingers before closing.
    pub connection_tie_break_linger_secs: u64,
}

impl Default for ConnectivityConfig {
    /// The stock configuration.
    fn default() -> (r: ConnectivityConfig)
        ensures
            r.min_connectivity == 1,
            r.connection_pool_refresh_interval_secs == 30,
            r.reaper_min_inactive_age_secs == 1200,
            r.is_connection_reaping_enabled,
            r.max_failures_mark_offline == 1,
            r.connection_tie_break_linger_secs == 2,
    {
        ConnectivityConfig {
            min_connectivity: 1,
            connection_pool_refresh_interval_secs: 30,
            reaper_min_inactive_age_secs: 1200,
            is_connection_reaping_enabled: true,
            max_failures_mark_offline: 1,
            connection_tie_break_linger_secs: 2,
        }
    }
}

/// Events the manager publishes to its subscribers.
#[derive(Debug, Clone, Copy, PartialEq, Eq, Structural)]
pub enum ConnectivityEvent {
    /// The manager started.
    ConnectivityStateInitialized,
    /// Enough nodes are connected.
    ConnectivityStateOnline(usize),
    /// Fewer nodes than required are connected.
    ConnectivityStateDegraded(usize),
    /// Nothing is connected.
    ConnectivityStateOffline,
    /// A peer connection reached the pool.
    PeerConnected(u64),
    /// A peer connection ended.
    PeerDisconnected(u64),
    /// A dial to the peer failed.
    PeerConnectFailed(u64),
    /// The losing side of a tie-break will close shortly.
    PeerConnectionWillClose(u64, ConnectionDirection),
    /// The peer was banned.
    PeerBanned(u64),
    /// The peer was marked offline after repeated failures.
    PeerOffline(u64),
}

/// Events the lower connection manager delivers to the connectivity
/// manager.
#[derive(Debug)]
pub enum ConnectionManagerEvent {
    /// A connection to the peer was established; carries its bookkeeping.
    PeerConnected(PeerConnection),
    /// The connection to the peer ended.
    PeerDisconnected(u64),
    /// A dial to the peer failed; the flag says the dial was cancelled
    /// rather than refused.
    PeerConnectFailed(u64, bool),
}

/// Actions the asynchronous shell must perform on the manager's behalf.
#[derive(Debug, Clone, Copy, PartialEq, Eq, Structural)]
pub enum ConnectivityAction {
    /// Cancel any dial in flight to the peer.
    CancelDial(u64),
    /// Close the connection with this identifier after the linger delay.
    DelayedClose(u64, u64),
    /// Publish the event to subscribers.
    Publish(ConnectivityEvent),
    /// Record the peer as offline with the peer manager.
    MarkPeerOffline(u64),
    /// Disconnect the peer's pooled connection.
    Disconnect(u64),
}

/// Per-peer consecutive dial-failure counter.
#[derive(Debug, Clone, Copy, PartialEq, Eq, Structural)]
pub struct PeerStat {
    /// The peer's node identifier.
    pub node_id: u64,
    /// Consecutive failed dials since the last success.
    pub failed_attempts: usize,
}

/// The first index of the stats list holding this node id; the length when
/// none does.
pub open spec fn find_stat(s: Seq<PeerStat>, node_id: u64) -> int
    decreases s.len(),
{
    if s.len() == 0 {
        0
    } else if s[0].node_id == node_id {
        0
    } else {
        1 + find_stat(s.drop_first(), node_id)
    }
}

/// Whether a stats list holds this node id.
pub open spec fn has_stat(s: Seq<PeerStat>, node_id: u64) -> bool {
    exists|i: int| 0 <= i < s.len() && s[i].node_id == node_id
}

/// Bounds and first-match correctness of the stat scan.
pub proof fn lemma_find_stat_props(s: Seq<PeerStat>, node_id: u64)
    ensures
        0 <= find_stat(s, node_id) <= s.len(),
        find_stat(s, node_id) < s.len() ==> s[find_stat(s, node_id)].node_id == node_id,
        forall|j: int| 0 <= j < find_stat(s, node_id) ==> s[j].node_id != node_id,
        has_stat(s, node_id) ==> find_stat(s, node_id) < s.len(),
    decreases s.len(),
{
    if s.len() > 0 && s[0].node_id != node_id {
        lemma_find_stat_props(s.drop_first(), node_id);
        let f = find_stat(s, node_id);
        assert forall|j: int| 0 <= j < f implies s[j].node_id != node_id by {
            if j > 0 {
                assert(s.drop_first()[j - 1] == s[j]);
            }
        }
        if f < s.len() {
            assert(s.drop_first()[f - 1] == s[f]);
        }
        if has_stat(s, node_id) {
            let w = choose|w: int| 0 <= w < s.len() && s[w].node_id == node_id;
            assert(w > 0);
            assert(s.drop_first()[w - 1] == s[w]);
        }
    }
}

/// Which side a duplicate-connection tie-break closes: `true` to close the
/// existing connection and keep the new one. The rule is a pure function of
/// the two directions and the two node ids, so both endpoints, seeing
/// mirrored directions, agree on the surviving wire.
pub open spec fn spec_tie_break(
    our_node_id: u64,
    peer_node_id: u64,
    existing: ConnectionDirection,
    new_dir: ConnectionDirection,
) -> bool {
    match (existing, new_dir) {
        (ConnectionDirection::Inbound, ConnectionDirection::Inbound) => true,
        (ConnectionDirection::Inbound, ConnectionDirection::Outbound) => peer_node_id
            > our_node_id,
        (ConnectionDirection::Outbound, ConnectionDirection::Inbound) => our_node_id
            > peer_node_id,
        (ConnectionDirection::Outbound, ConnectionDirection::Outbound) => false,
    }
}

/// Both endpoints of a simultaneous dial agree on which wire survives.
///
/// Endpoint `a` sees one wire as existing and the other as new; endpoint
/// `b` sees the same wires with the directions flipped. Whatever order the
/// two connections landed in at `b`, the wire each endpoint closes is the
/// same: with mirrored arrival order the two decisions are equal (both name
/// the same wire through opposite roles), with equal arrival order exactly
/// one endpoint closes its existing wire; and when one endpoint sees two
/// inbound connections, the other sees two outbound ones and drops the
/// complementary one.
pub proof fn lemma_tie_break_symmetric(a: u64, b: u64)
    requires
        a != b,
    ensures
        spec_tie_break(a, b, ConnectionDirection::Inbound, ConnectionDirection::Outbound)
            == spec_tie_break(b, a, ConnectionDirection::Outbound, ConnectionDirection::Inbound),
        spec_tie_break(a, b, ConnectionDirection::Inbound, ConnectionDirection::Outbound)
            == !spec_tie_break(b, a, ConnectionDirection::Inbound, ConnectionDirection::Outbound),
        spec_tie_break(a, b, ConnectionDirection::Outbound, ConnectionDirection::Inbound)
            == !spec_tie_break(b, a, ConnectionDirection::Outbound, ConnectionDirection::Inbound),
        spec_tie_break(a, b, ConnectionDirection::Inbound, ConnectionDirection::Inbound)
            && !spec_tie_break(b, a, ConnectionDirection::Outbound, ConnectionDirection::Outbound),
{
}

/// The connectivity status the pool's counts dictate: online at or above
/// the minimum, degraded below it, offline when nothing at all is
/// connected, and unchanged while only clients remain.
pub open spec fn spec_next_status(
    prev: ConnectivityStatus,
    nodes: int,
    clients: int,
    min_connectivity: int,
) -> ConnectivityStatus {
    if nodes >= min_connectivity {
        ConnectivityStatus::Online(nodes as usize)
    } else if nodes > 0 {
        ConnectivityStatus::Degraded(nodes as usize)
    } else if clients == 0 {
        ConnectivityStatus::Offline
    } else {
        prev
    }
}

/// The event a status transition publishes: re-announcements of the same
/// status are suppressed, except a degraded count change.
pub open spec fn spec_transition_event(
    prev: ConnectivityStatus,
    next: ConnectivityStatus,
) -> Option<ConnectivityEvent> {
    match (prev, next) {
        (ConnectivityStatus::Online(_), ConnectivityStatus::Online(_)) => None,
        (_, ConnectivityStatus::Online(n)) => Some(ConnectivityEvent::ConnectivityStateOnline(n)),
        (ConnectivityStatus::Degraded(m), ConnectivityStatus::Degraded(n)) => if m != n {
            Some(ConnectivityEvent::ConnectivityStateDegraded(n))
        } else {
            None
        },
        (_, ConnectivityStatus::Degraded(n)) => Some(
            ConnectivityEvent::ConnectivityStateDegraded(n),
        ),
        (ConnectivityStatus::Offline, ConnectivityStatus::Offline) => None,
        (_, ConnectivityStatus::Offline) => Some(ConnectivityEvent::ConnectivityStateOffline),
        _ => None,
    }
}

/// The events the shared status-transition tail publishes when a peer's
/// recorded status moves: a connection is announced, a disconnection is
/// announced only when the peer was connected, and a failure is announced
/// always.
pub open spec fn spec_status_change_actions(
    old_status: ConnectionStatus,
    new_status: ConnectionStatus,
    node_id: u64,
) -> Seq<ConnectivityAction> {
    if new_status is Connected {
        seq![ConnectivityAction::Publish(ConnectivityEvent::PeerConnected(node_id))]
    } else if new_status is Disconnected {
        if old_status is Connected {
            seq![ConnectivityAction::Publish(ConnectivityEvent::PeerDisconnected(node_id))]
        } else {
            Seq::empty()
        }
    } else if new_status is Failed {
        seq![ConnectivityAction::Publish(ConnectivityEvent::PeerConnectFailed(node_id))]
    } else {
        Seq::empty()
    }
}

/// A status-transition event as an action list: one publish, or nothing.
pub open spec fn opt_event_actions(ev: Option<ConnectivityEvent>) -> Seq<ConnectivityAction> {
    match ev {
        Some(e) => seq![ConnectivityAction::Publish(e)],
        None => Seq::empty(),
    }
}

/// Two pools whose records carry the same node ids position by position
/// are scanned identically.
pub proof fn lemma_find_node_same_ids(
    s1: Seq<PeerConnectionState>,
    s2: Seq<PeerConnectionState>,
    node_id: u64,
)
    requires
        s1.len() == s2.len(),
        forall|k: int| 0 <= k < s1.len() ==> s1[k].node_id == s2[k].node_id,
    ensures
        find_node(s1, node_id) == find_node(s2, node_id),
    decreases s1.len(),
{
    if s1.len() > 0 {
        assert(s1[0].node_id == s2[0].node_id);
        if s1[0].node_id != node_id {
            lemma_find_node_same_ids(s1.drop_first(), s2.drop_first(), node_id);
            assert forall|k: int| 0 <= k < s1.drop_first().len() implies s1.drop_first()[k].node_id
                == s2.drop_first()[k].node_id by {
                assert(s1.drop_first()[k] == s1[k + 1]);
                assert(s2.drop_first()[k] == s2[k + 1]);
            }
        }
    }
}

/// Appending a record for an absent node id makes it the scan's answer.
pub proof fn lemma_find_node_push(
    s: Seq<PeerConnectionState>,
    entry: PeerConnectionState,
    node_id: u64,
)
    requires
        entry.node_id == node_id,
        !crate::connection_pool::has_node(s, node_id),
    ensures
        find_node(s.push(entry), node_id) == s.len(),
    decreases s.len(),
{
    if s.len() == 0 {
        assert(s.push(entry)[0] == entry);
    } else {
        assert(s.push(entry)[0] == s[0]);
        assert(s[0].node_id != node_id);
        assert forall|k: int| 0 <= k < s.drop_first().len() implies s.drop_first()[k].node_id
            != node_id by {
            assert(s.drop_first()[k] == s[k + 1]);
        }
        lemma_find_node_push(s.drop_first(), entry, node_id);
        assert(s.push(entry).drop_first() =~= s.drop_first().push(entry));
    }
}

/// Two stats lists with the same node ids position by position are scanned
/// identically.
pub proof fn lemma_find_stat_same_ids(s1: Seq<PeerStat>, s2: Seq<PeerStat>, node_id: u64)
    requires
        s1.len() == s2.len(),
        forall|k: int| 0 <= k < s1.len() ==> s1[k].node_id == s2[k].node_id,
    ensures
        find_stat(s1, node_id) == find_stat(s2, node_id),
    decreases s1.len(),
{
    if s1.len() > 0 {
        assert(s1[0].node_id == s2[0].node_id);
        if s1[0].node_id != node_id {
            lemma_find_stat_same_ids(s1.drop_first(), s2.drop_first(), node_id);
            assert forall|k: int| 0 <= k < s1.drop_first().len() implies s1.drop_first()[k].node_id
                == s2.drop_first()[k].node_id by {
                assert(s1.drop_first()[k] == s1[k + 1]);
                assert(s2.drop_first()[k] == s2[k + 1]);
            }
        }
    }
}

/// Appending a counter for an absent node id makes it the scan's answer.
pub proof fn lemma_find_stat_push(s: Seq<PeerStat>, entry: PeerStat, node_id: u64)
    requires
        entry.node_id == node_id,
        !has_stat(s, node_id),
    ensures
        find_stat(s.push(entry), node_id) == s.len(),
    decreases s.len(),
{
    if s.len() == 0 {
        assert(s.push(entry)[0] == entry);
    } else {
        assert(s.push(entry)[0] == s[0]);
        assert(s[0].node_id != node_id);
        assert forall|k: int| 0 <= k < s.drop_first().len() implies s.drop_first()[k].node_id
            != node_id by {
            assert(s.drop_first()[k] == s[k + 1]);
        }
        lemma_find_stat_push(s.drop_first(), entry, node_id);
        assert(s.push(entry).drop_first() =~= s.drop_first().push(entry));
    }
}

/// The failure counters after a successful connection: the peer's counter
/// reset to zero, created when absent.
pub open spec fn spec_stats_after_success(s: Seq<PeerStat>, node_id: u64) -> Seq<PeerStat> {
    let i = find_stat(s, node_id);
    if i < s.len() {
        s.update(i, PeerStat { node_id, failed_attempts: 0 })
    } else {
        s.push(PeerStat { node_id, failed_attempts: 0 })
    }
}

/// The failure counters after one more failed dial: the peer's counter
/// incremented (saturating), created at one when absent, and cleared
/// entirely when the configured limit is reached.
pub open spec fn spec_stats_after_failure(s: Seq<PeerStat>, node_id: u64, max: usize) -> Seq<
    PeerStat,
> {
    let i = find_stat(s, node_id);
    if i < s.len() {
        let prev = s[i].failed_attempts;
        let next: usize = if prev < usize::MAX {
            (prev + 1) as usize
        } else {
            prev
        };
        if next >= max {
            s.remove(i)
        } else {
            s.update(i, PeerStat { node_id, failed_attempts: next })
        }
    } else {
        if 1 >= max {
            s
        } else {
            s.push(PeerStat { node_id, failed_attempts: 1 })
        }
    }
}

/// Whether one more failed dial reaches the offline limit.
pub open spec fn spec_failure_reaches_limit(s: Seq<PeerStat>, node_id: u64, max: usize) -> bool {
    let i = find_stat(s, node_id);
    let next: int = if i < s.len() {
        if s[i].failed_attempts < usize::MAX {
            s[i].failed_attempts + 1
        } else {
            s[i].failed_attempts as int
        }
    } else {
        1
    };
    next >= max
}

/// A selection query over the live connections.
#[derive(Debug, Clone, Copy, PartialEq, Eq, Structural)]
pub enum ConnectivitySelection {
    /// Up to this many live connections, drawn from caller-supplied
    /// entropy.
    Random(usize),
    /// Up to this many live connections closest to the node id by
    /// exclusive-or distance.
    ClosestTo(u64, usize),
    /// Every live connection.
    All,
    /// Every live connection to a full node.
    AllNodes,
    /// Every live connection to a client.
    AllClients,
}

/// The node ids of all live connections, in pool order.
pub open spec fn connected_ids(s: Seq<PeerConnectionState>) -> Seq<u64> {
    s.filter(|st: PeerConnectionState| st.status is Connected).map_values(
        |st: PeerConnectionState| st.node_id,
    )
}

/// How a dial request is satisfied.
#[derive(Debug, Clone, Copy, PartialEq, Eq, Structural)]
pub enum DialDecision {
    /// A live connection exists; reply with it.
    UseExisting,
    /// No live connection; forward the dial to the connection manager.
    Dial,
}

/// The connectivity manager's state.
#[derive(Debug)]
pub struct ConnectivityManagerState {
    /// Configuration.
    pub config: ConnectivityConfig,
    /// Current aggregate status.
    pub status: ConnectivityStatus,
    /// Per-peer connection records.
    pub pool: ConnectionPool,
    /// Per-peer consecutive failure counters.
    pub connection_stats: Vec<PeerStat>,
    /// Our own node identifier, used by the tie-break rule.
    pub our_node_id: u64,
}

impl ConnectivityManagerState {
    /// A fresh manager: empty pool, no counters, initializing.
    pub fn new(config: ConnectivityConfig, our_node_id: u64) -> (r: ConnectivityManagerState)
        ensures
            r.config == config,
            r.status is Initializing,
            r.pool.states@ =~= Seq::<PeerConnectionState>::empty(),
            r.connection_stats@ =~= Seq::<PeerStat>::empty(),
            r.our_node_id == our_node_id,
    {
        ConnectivityManagerState {
            config,
            status: ConnectivityStatus::Initializing,
            pool: ConnectionPool::new(),
            connection_stats: Vec::new(),
            our_node_id,
        }
    }

    /// Decides which side of a duplicate connection to close: `true` closes
    /// the existing connection, `false` the new one.
    pub fn tie_break_existing_connection(
        &self,
        existing_conn: &PeerConnection,
        new_conn: &PeerConnection,
    ) -> (r: bool)
        ensures
            r == spec_tie_break(
                self.our_node_id,
                existing_conn.peer_node_id,
                existing_conn.direction,
                new_conn.direction,
            ),
    {
        let peer_node_id = existing_conn.peer_node_id;
        match (existing_conn.direction, new_conn.direction) {
            (ConnectionDirection::Inbound, ConnectionDirection::Inbound) => true,
            (ConnectionDirection::Inbound, ConnectionDirection::Outbound) => peer_node_id
                > self.our_node_id,
            (ConnectionDirection::Outbound, ConnectionDirection::Inbound) => self.our_node_id
                > peer_node_id,
            (ConnectionDirection::Outbound, ConnectionDirection::Outbound) => false,
        }
    }

    /// Moves to the given status, answering the event to publish, if any.
    pub fn transition(&mut self, next_status: ConnectivityStatus) -> (ev: Option<
        ConnectivityEvent,
    >)
        ensures
            final(self).status == next_status,
            ev == spec_transition_event(old(self).status, next_status),
            final(self).config == old(self).config,
            final(self).pool.states@ == old(self).pool.states@,
            final(self).connection_stats@ == old(self).connection_stats@,
            final(self).our_node_id == old(self).our_node_id,
    {
        let prev = self.status;
        self.status = next_status;
        match (prev, next_status) {
            (ConnectivityStatus::Online(_), ConnectivityStatus::Online(_)) => None,
            (_, ConnectivityStatus::Online(n)) => Some(
                ConnectivityEvent::ConnectivityStateOnline(n),
            ),
            (ConnectivityStatus::Degraded(m), ConnectivityStatus::Degraded(n)) => if m != n {
                Some(ConnectivityEvent::ConnectivityStateDegraded(n))
            } else {
                None
            },
            (_, ConnectivityStatus::Degraded(n)) => Some(
                ConnectivityEvent::ConnectivityStateDegraded(n),
            ),
            (ConnectivityStatus::Offline, ConnectivityStatus::Offline) => None,
            (_, ConnectivityStatus::Offline) => Some(ConnectivityEvent::ConnectivityStateOffline),
            _ => None,
        }
    }

    /// Recomputes the connectivity status from the pool's counts, answering
    /// the event to publish, if any.
    pub fn update_connectivity_status(&mut self) -> (ev: Option<ConnectivityEvent>)
        ensures
            ({
                let nodes = count_connected_nodes_upto(
                    old(self).pool.states@,
                    old(self).pool.states@.len() as int,
                );
                let clients = count_connected_clients_upto(
                    old(self).pool.states@,
                    old(self).pool.states@.len() as int,
                );
                let next = spec_next_status(
                    old(self).status,
                    nodes,
                    clients,
                    old(self).config.min_connectivity as int,
                );
                final(self).status == next && ev == spec_transition_event(old(self).status, next)
            }),
            final(self).config == old(self).config,
            final(self).pool.states@ == old(self).pool.states@,
            final(self).connection_stats@ == old(self).connection_stats@,
            final(self).our_node_id == old(self).our_node_id,
    {
        let num_connected_nodes = self.pool.count_connected_nodes();
        let num_connected_clients = self.pool.count_connected_clients();
        if num_connected_nodes >= self.config.min_connectivity {
            self.transition(ConnectivityStatus::Online(num_connected_nodes))
        } else if num_connected_nodes > 0 {
            self.transition(ConnectivityStatus::Degraded(num_connected_nodes))
        } else if num_connected_clients == 0 {
            self.transition(ConnectivityStatus::Offline)
        } else {
            None
        }
    }

    /// Resets the peer's consecutive-failure counter after a successful
    /// connection.
    pub fn mark_peer_succeeded(&mut self, node_id: u64)
        ensures
            ({
                let i = find_stat(old(self).connection_stats@, node_id);
                if i < old(self).connection_stats@.len() {
                    final(self).connection_stats@ =~= old(self).connection_stats@.update(
                        i,
                        PeerStat { node_id, failed_attempts: 0 },
                    )
                } else {
                    final(self).connection_stats@ =~= old(self).connection_stats@.push(
                        PeerStat { node_id, failed_attempts: 0 },
                    )
                }
            }),
            final(self).config == old(self).config,
            final(self).status == old(self).status,
            final(self).pool.states@ == old(self).pool.states@,
            final(self).our_node_id == old(self).our_node_id,
    {
        match self.find_stat_index(node_id) {
            Some(i) => {
                let ghost pre = self.connection_stats@;
                self.connection_stats.remove(i);
                self.connection_stats.insert(i, PeerStat { node_id, failed_attempts: 0 });
                proof {
                    assert(self.connection_stats@ =~= pre.update(
                        i as int,
                        PeerStat { node_id, failed_attempts: 0 },
                    ));
                }
            },
            None => {
                self.connection_stats.push(PeerStat { node_id, failed_attempts: 0 });
            },
        }
    }

    /// Counts one more consecutive failure for the peer, answering the new
    /// count; the counter saturates rather than wraps.
    pub fn mark_peer_failed(&mut self, node_id: u64) -> (count: usize)
        ensures
            ({
                let i = find_stat(old(self).connection_stats@, node_id);
                if i < old(self).connection_stats@.len() {
                    ({
                        let prev = old(self).connection_stats@[i].failed_attempts;
                        let next: usize = if prev < usize::MAX {
                            (prev + 1) as usize
                        } else {
                            prev
                        };
                        count == next && final(self).connection_stats@ =~= old(
                            self,
                        ).connection_stats@.update(i, PeerStat { node_id, failed_attempts: next })
                    })
                } else {
                    count == 1 && final(self).connection_stats@ =~= old(
                        self,
                    ).connection_stats@.push(PeerStat { node_id, failed_attempts: 1 })
                }
            }),
            final(self).config == old(self).config,
            final(self).status == old(self).status,
            final(self).pool.states@ == old(self).pool.states@,
            final(self).our_node_id == old(self).our_node_id,
    {
        match self.find_stat_index(node_id) {
            Some(i) => {
                let prev = self.connection_stats[i].failed_attempts;
                let next = if prev < usize::MAX {
                    prev + 1
                } else {
                    prev
                };
                let ghost pre = self.connection_stats@;
                self.connection_stats.remove(i);
                self.connection_stats.insert(i, PeerStat { node_id, failed_attempts: next });
                proof {
                    assert(self.connection_stats@ =~= pre.update(
                        i as int,
                        PeerStat { node_id, failed_attempts: next },
                    ));
                }
                next
            },
            None => {
                self.connection_stats.push(PeerStat { node_id, failed_attempts: 1 });
                1
            },
        }
    }

    /// Drops the peer's failure counter.
    pub fn remove_stat(&mut self, node_id: u64)
        ensures
            ({
                let i = find_stat(old(self).connection_stats@, node_id);
                if i < old(self).connection_stats@.len() {
                    final(self).connection_stats@ =~= old(self).connection_stats@.remove(i)
                } else {
                    final(self).connection_stats@ =~= old(self).connection_stats@
                }
            }),
            final(self).config == old(self).config,
            final(self).status == old(self).status,
            final(self).pool.states@ == old(self).pool.states@,
            final(self).our_node_id == old(self).our_node_id,
    {
        match self.find_stat_index(node_id) {
            Some(i) => {
                self.connection_stats.remove(i);
            },
            None => {},
        }
    }

    /// Looks the peer's failure counter up.
    fn find_stat_index(&self, node_id: u64) -> (r: Option<usize>)
        ensures
            match r {
                Some(i) => i as int == find_stat(self.connection_stats@, node_id) && i < self
                    .connection_stats@.len() && self.connection_stats@[i as int].node_id
                    == node_id,
                None => !has_stat(self.connection_stats@, node_id) && find_stat(
                    self.connection_stats@,
                    node_id,
                ) == self.connection_stats@.len(),
            },
    {
        let ghost s = self.connection_stats@;
        proof {
            lemma_find_stat_props(s, node_id);
        }
        let mut i: usize = 0;
        while i < self.connection_stats.len()
            invariant
                0 <= i <= s.len(),
                s == self.connection_stats@,
                forall|j: int| 0 <= j < i ==> s[j].node_id != node_id,
            decreases s.len() - i,
        {
            if self.connection_stats[i].node_id == node_id {
                proof {
                    lemma_find_stat_props(s, node_id);
                    let f = find_stat(s, node_id);
                    if f < i {
                        assert(s[f].node_id != node_id);
                    }
                    if f > i {
                        assert(s[i as int].node_id != node_id);
                    }
                }
                return Some(i);
            }
            i += 1;
        }
        proof {
            lemma_find_stat_props(s, node_id);
            if has_stat(s, node_id) {
                let w = choose|w: int| 0 <= w < s.len() && s[w].node_id == node_id;
                assert(false);
            }
        }
        None
    }

    /// Handles a dial failure: while the node itself is offline, failures
    /// are ignored; otherwise the failure is counted, and reaching the
    /// configured limit asks for the peer to be marked offline and clears
    /// its counter.
    pub fn handle_peer_connection_failure(&mut self, node_id: u64) -> (actions: Vec<
        ConnectivityAction,
    >)
        ensures
            final(self).config == old(self).config,
            final(self).status == old(self).status,
            final(self).pool.states@ == old(self).pool.states@,
            final(self).our_node_id == old(self).our_node_id,
            old(self).status is Offline ==> actions@ =~= Seq::<ConnectivityAction>::empty()
                && final(self).connection_stats@ == old(self).connection_stats@,
            !(old(self).status is Offline) ==> ({
                let s0 = old(self).connection_stats@;
                let max = old(self).config.max_failures_mark_offline;
                &&& final(self).connection_stats@ =~= spec_stats_after_failure(s0, node_id, max)
                &&& actions@ =~= (if spec_failure_reaches_limit(s0, node_id, max) {
                    seq![ConnectivityAction::MarkPeerOffline(node_id)]
                } else {
                    Seq::<ConnectivityAction>::empty()
                })
            }),
    {
        let mut actions: Vec<ConnectivityAction> = Vec::new();
        if self.status.is_offline() {
            return actions;
        }
        let ghost s0 = self.connection_stats@;
        proof {
            lemma_find_stat_props(s0, node_id);
        }
        let num_failed = self.mark_peer_failed(node_id);
        let ghost s1 = self.connection_stats@;
        if num_failed >= self.config.max_failures_mark_offline {
            actions.push(ConnectivityAction::MarkPeerOffline(node_id));
            proof {
                let i = find_stat(s0, node_id);
                if i < s0.len() {
                    lemma_find_stat_same_ids(s1, s0, node_id);
                } else {
                    lemma_find_stat_push(
                        s0,
                        PeerStat { node_id, failed_attempts: 1 },
                        node_id,
                    );
                }
                lemma_find_stat_props(s1, node_id);
            }
            self.remove_stat(node_id);
            proof {
                let i = find_stat(s0, node_id);
                if i < s0.len() {
                    assert(self.connection_stats@ =~= s0.remove(i));
                } else {
                    assert(self.connection_stats@ =~= s0);
                }
            }
        }
        actions
    }

    /// The event to publish once the peer manager has recorded a peer
    /// offline: nothing when the peer was already offline.
    pub fn peer_offline_event(node_id: u64, was_already_offline: bool) -> (ev: Option<
        ConnectivityEvent,
    >)
        ensures
            ev == (if was_already_offline {
                Option::<ConnectivityEvent>::None
            } else {
                Some(ConnectivityEvent::PeerOffline(node_id))
            }),
    {
        if was_already_offline {
            None
        } else {
            Some(ConnectivityEvent::PeerOffline(node_id))
        }
    }

    /// Decides how to satisfy a dial request: a live pooled connection is
    /// reused, anything else is forwarded to the connection manager.
    pub fn dial_action(&self, node_id: u64) -> (r: DialDecision)
        ensures
            ({
                let i = find_node(self.pool.states@, node_id);
                let live = i < self.pool.states@.len() && self.pool.states@[i].status is Connected
                    && match self.pool.states@[i].connection {
                        Some(c) => c.connected,
                        None => false,
                    };
                r == (if live {
                    DialDecision::UseExisting
                } else {
                    DialDecision::Dial
                })
            }),
    {
        match self.pool.get(node_id) {
            Some(state) => {
                let live = match (&state.status, &state.connection) {
                    (ConnectionStatus::Connected, Some(c)) => c.connected,
                    _ => false,
                };
                if live {
                    DialDecision::UseExisting
                } else {
                    DialDecision::Dial
                }
            },
            None => DialDecision::Dial,
        }
    }

    /// The node ids of all live connections.
    pub fn get_active_connections(&self) -> (r: Vec<u64>)
        ensures
            r@ =~= self.pool.states@.filter(
                |st: PeerConnectionState| st.status is Connected,
            ).map_values(|st: PeerConnectionState| st.node_id),
    {
        let ghost s = self.pool.states@;
        let mut out: Vec<u64> = Vec::new();
        let mut i: usize = 0;
        while i < self.pool.states.len()
            invariant
                0 <= i <= s.len(),
                s == self.pool.states@,
                out@ =~= s.take(i as int).filter(
                    |st: PeerConnectionState| st.status is Connected,
                ).map_values(|st: PeerConnectionState| st.node_id),
            decreases s.len() - i,
        {
            proof {
                assert(s.take(i + 1).drop_last() =~= s.take(i as int));
                assert(s.take(i + 1).last() == s[i as int]);
                reveal(Seq::filter);
            }
            let st = &self.pool.states[i];
            let matched = match st.status {
                ConnectionStatus::Connected => true,
                _ => false,
            };
            if matched {
                out.push(st.node_id);
            }
            i += 1;
        }
        assert(s.take(s.len() as int) =~= s);
        out
    }

    /// Clears failed and disconnected records out of the pool, answering
    /// the node ids cleared.
    pub fn clean_connection_pool(&mut self) -> (removed: Vec<u64>)
        ensures
            final(self).pool.states@ =~= old(self).pool.states@.filter(
                |st: PeerConnectionState| !(st.status is Failed || st.status is Disconnected),
            ),
            removed@ =~= old(self).pool.states@.filter(
                |st: PeerConnectionState| st.status is Failed || st.status is Disconnected,
            ).map_values(|st: PeerConnectionState| st.node_id),
            final(self).config == old(self).config,
            final(self).status == old(self).status,
            final(self).connection_stats@ == old(self).connection_stats@,
            final(self).our_node_id == old(self).our_node_id,
    {
        self.pool.drain_failed_and_disconnected()
    }

    /// One refresh tick: clears dead records, selects idle connections to
    /// reap when reaping is enabled, and recomputes the status. Answers the
    /// node ids to disconnect and the status event to publish, if any.
    pub fn refresh_connection_pool(&mut self) -> (r: (Vec<u64>, Option<ConnectivityEvent>))
        ensures
            ({
                let cleaned = old(self).pool.states@.filter(
                    |st: PeerConnectionState| !(st.status is Failed || st.status is Disconnected),
                );
                &&& final(self).pool.states@ =~= cleaned
                &&& (old(self).config.is_connection_reaping_enabled ==> r.0@ =~= cleaned.filter(
                    |st: PeerConnectionState| crate::connection_pool::is_inactive(
                        st,
                        old(self).config.reaper_min_inactive_age_secs,
                    ),
                ).map_values(|st: PeerConnectionState| st.node_id))
                &&& (!old(self).config.is_connection_reaping_enabled ==> r.0@ =~= Seq::<
                    u64,
                >::empty())
                &&& ({
                    let nodes = count_connected_nodes_upto(cleaned, cleaned.len() as int);
                    let clients = count_connected_clients_upto(cleaned, cleaned.len() as int);
                    let next = spec_next_status(
                        old(self).status,
                        nodes,
                        clients,
                        old(self).config.min_connectivity as int,
                    );
                    final(self).status == next && r.1 == spec_transition_event(
                        old(self).status,
                        next,
                    )
                })
            }),
            final(self).config == old(self).config,
            final(self).connection_stats@ == old(self).connection_stats@,
            final(self).our_node_id == old(self).our_node_id,
    {
        let _cleared = self.clean_connection_pool();
        let to_reap: Vec<u64> = if self.config.is_connection_reaping_enabled {
            self.pool.inactive_connection_ids(self.config.reaper_min_inactive_age_secs)
        } else {
            Vec::new()
        };
        let ev = self.update_connectivity_status();
        (to_reap, ev)
    }

    /// Empties the pool for shutdown, answering the node ids that held a
    /// live connection, for the shell to disconnect.
    pub fn disconnect_all(&mut self) -> (r: Vec<u64>)
        ensures
            final(self).pool.states@ =~= Seq::<PeerConnectionState>::empty(),
            r@ =~= old(self).pool.states@.filter(
                |st: PeerConnectionState| st.connection is Some,
            ).map_values(|st: PeerConnectionState| st.node_id),
            final(self).config == old(self).config,
            final(self).status == old(self).status,
            final(self).connection_stats@ == old(self).connection_stats@,
            final(self).our_node_id == old(self).our_node_id,
    {
        let ghost s0 = self.pool.states@;
        let mut out: Vec<u64> = Vec::new();
        let ghost mut taken: int = 0;
        while self.pool.states.len() > 0
            invariant
                0 <= taken <= s0.len(),
                self.pool.states@ =~= s0.subrange(taken, s0.len() as int),
                out@ =~= s0.take(taken).filter(
                    |st: PeerConnectionState| st.connection is Some,
                ).map_values(|st: PeerConnectionState| st.node_id),
                self.config == old(self).config,
                self.status == old(self).status,
                self.connection_stats@ == old(self).connection_stats@,
                self.our_node_id == old(self).our_node_id,
            decreases self.pool.states@.len(),
        {
            let st = self.pool.states.remove(0);
            proof {
                assert(st == s0[taken]);
                assert(s0.take(taken + 1).drop_last() =~= s0.take(taken));
                assert(s0.take(taken + 1).last() == s0[taken]);
                reveal(Seq::filter);
            }
            match &st.connection {
                Some(_) => {
                    out.push(st.node_id);
                },
                None => {},
            }
            proof {
                taken = taken + 1;
                assert(self.pool.states@ =~= s0.subrange(taken, s0.len() as int));
            }
        }
        proof {
            assert(s0.take(s0.len() as int) =~= s0);
        }
        out
    }

    /// Bans a peer: asks the shell to publish the ban and, when a pooled
    /// connection exists, to disconnect it.
    pub fn ban_peer(&self, node_id: u64) -> (actions: Vec<ConnectivityAction>)
        ensures
            ({
                let i = find_node(self.pool.states@, node_id);
                let has_conn = i < self.pool.states@.len() && self.pool.states@[i].connection
                    is Some;
                if has_conn {
                    actions@ =~= seq![
                        ConnectivityAction::Publish(ConnectivityEvent::PeerBanned(node_id)),
                        ConnectivityAction::Disconnect(node_id),
                    ]
                } else {
                    actions@ =~= seq![
                        ConnectivityAction::Publish(ConnectivityEvent::PeerBanned(node_id)),
                    ]
                }
            }),
    {
        let mut actions: Vec<ConnectivityAction> = Vec::new();
        actions.push(ConnectivityAction::Publish(ConnectivityEvent::PeerBanned(node_id)));
        match self.pool.get_connection(node_id) {
            Some(_) => {
                actions.push(ConnectivityAction::Disconnect(node_id));
            },
            None => {},
        }
        actions
    }

    /// Answers a connection-selection request over the live connections.
    ///
    /// `All` takes every live connection, `AllNodes` and `AllClients` the
    /// respective roles. `ClosestTo` takes up to `n` live connections,
    /// preferring smaller exclusive-or distance between node ids. `Random`
    /// takes up to `n` live connections starting at a position drawn from
    /// the entropy the caller supplies; the choice is a function of that
    /// entropy alone.
    pub fn select_connections(&self, selection: ConnectivitySelection, entropy: u64) -> (r: Vec<
        u64,
    >)
        ensures
            match selection {
                ConnectivitySelection::All => r@ =~= connected_ids(self.pool.states@),
                ConnectivitySelection::AllNodes => r@ =~= self.pool.states@.filter(
                    |st: PeerConnectionState| is_connected_node(st),
                ).map_values(|st: PeerConnectionState| st.node_id),
                ConnectivitySelection::AllClients => r@ =~= self.pool.states@.filter(
                    |st: PeerConnectionState| is_connected_client(st),
                ).map_values(|st: PeerConnectionState| st.node_id),
                ConnectivitySelection::ClosestTo(_, n) => r@.len() <= n && (forall|k: int|
                    0 <= k < r@.len() ==> connected_ids(self.pool.states@).contains(
                        #[trigger] r@[k],
                    )),
                ConnectivitySelection::Random(n) => r@.len() <= n && (forall|k: int|
                    0 <= k < r@.len() ==> connected_ids(self.pool.states@).contains(
                        #[trigger] r@[k],
                    )),
            },
    {
        let all = self.get_active_connections();
        match selection {
            ConnectivitySelection::All => all,
            ConnectivitySelection::AllNodes => self.select_by_role(true),
            ConnectivitySelection::AllClients => self.select_by_role(false),
            ConnectivitySelection::ClosestTo(target, n) => {
                let mut picked: Vec<u64> = Vec::new();
                let mut remaining = all;
                while picked.len() < n && remaining.len() > 0
                    invariant
                        forall|k: int|
                            0 <= k < picked@.len() ==> connected_ids(self.pool.states@).contains(
                                #[trigger] picked@[k],
                            ),
                        forall|k: int|
                            0 <= k < remaining@.len() ==> connected_ids(
                                self.pool.states@,
                            ).contains(#[trigger] remaining@[k]),
                        picked@.len() <= n,
                    decreases remaining@.len(),
                {
                    let mut best: usize = 0;
                    let mut m: usize = 1;
                    while m < remaining.len()
                        invariant
                            0 <= best < remaining@.len(),
                            1 <= m <= remaining@.len(),
                            remaining@.len() > 0,
                            forall|k: int|
                                0 <= k < m ==> (remaining@[best as int] ^ target) <= (
                                #[trigger] remaining@[k] ^ target),
                        decreases remaining@.len() - m,
                    {
                        if (remaining[m] ^ target) < (remaining[best] ^ target) {
                            best = m;
                        }
                        m += 1;
                    }
                    let ghost rem_pre = remaining@;
                    let chosen = remaining.remove(best);
                    proof {
                        assert(rem_pre.contains(chosen));
                        assert forall|k: int| 0 <= k < remaining@.len() implies connected_ids(
                            self.pool.states@,
                        ).contains(#[trigger] remaining@[k]) by {
                            assert(remaining@ == rem_pre.remove(best as int));
                            if k < best {
                                assert(remaining@[k] == rem_pre[k]);
                            } else {
                                assert(remaining@[k] == rem_pre[k + 1]);
                            }
                        }
                    }
                    picked.push(chosen);
                }
                picked
            },
            ConnectivitySelection::Random(n) => {
                let mut picked: Vec<u64> = Vec::new();
                let count = all.len();
                if count == 0 {
                    return picked;
                }
                let start = (entropy % count as u64) as usize;
                let mut taken: usize = 0;
                while taken < n && taken < count
                    invariant
                        0 <= start < count,
                        count == all@.len(),
                        taken <= n,
                        picked@.len() == taken,
                        forall|k: int|
                            0 <= k < picked@.len() ==> connected_ids(self.pool.states@).contains(
                                #[trigger] picked@[k],
                            ),
                        forall|k: int|
                            0 <= k < all@.len() ==> connected_ids(self.pool.states@).contains(
                                #[trigger] all@[k],
                            ),
                    decreases n - taken,
                {
                    let idx = if taken >= count - start {
                        taken - (count - start)
                    } else {
                        start + taken
                    };
                    picked.push(all[idx]);
                    taken += 1;
                }
                picked
            },
        }
    }

    /// The live connections of one role, as node ids.
    fn select_by_role(&self, nodes: bool) -> (r: Vec<u64>)
        ensures
            nodes ==> r@ =~= self.pool.states@.filter(
                |st: PeerConnectionState| is_connected_node(st),
            ).map_values(|st: PeerConnectionState| st.node_id),
            !nodes ==> r@ =~= self.pool.states@.filter(
                |st: PeerConnectionState| is_connected_client(st),
            ).map_values(|st: PeerConnectionState| st.node_id),
    {
        let ghost s = self.pool.states@;
        let mut out: Vec<u64> = Vec::new();
        let mut i: usize = 0;
        while i < self.pool.states.len()
            invariant
                0 <= i <= s.len(),
                s == self.pool.states@,
                nodes ==> out@ =~= s.take(i as int).filter(
                    |st: PeerConnectionState| is_connected_node(st),
                ).map_values(|st: PeerConnectionState| st.node_id),
                !nodes ==> out@ =~= s.take(i as int).filter(
                    |st: PeerConnectionState| is_connected_client(st),
                ).map_values(|st: PeerConnectionState| st.node_id),
            decreases s.len() - i,
        {
            proof {
                assert(s.take(i + 1).drop_last() =~= s.take(i as int));
                assert(s.take(i + 1).last() == s[i as int]);
                reveal(Seq::filter);
            }
            let st = &self.pool.states[i];
            let matched = match (&st.status, &st.connection) {
                (ConnectionStatus::Connected, Some(c)) => {
                    if nodes {
                        c.peer_features.is_node()
                    } else {
                        !c.peer_features.is_node()
                    }
                },
                _ => false,
            };
            proof {
                if nodes {
                    assert(matched == is_connected_node(s[i as int]));
                } else {
                    assert(matched == is_connected_client(s[i as int]));
                }
            }
            if matched {
                out.push(st.node_id);
            }
            i += 1;
        }
        assert(s.take(s.len() as int) =~= s);
        out
    }

    /// Handles one event from the lower connection manager.
    ///
    /// A new connection first cancels any dial in flight, then resolves a
    /// possible duplicate: a dead or stale existing connection, or one the
    /// tie-break rule votes against, is closed after the linger delay and
    /// the new connection takes its place; otherwise the new connection is
    /// the one closed and nothing else changes. The pool record, failure
    /// counters and aggregate status are then brought up to date, and every
    /// event to publish is answered as an action.
    pub fn handle_connection_manager_event(&mut self, event: ConnectionManagerEvent) -> (actions:
        Vec<ConnectivityAction>)
        ensures
            final(self).config == old(self).config,
            final(self).our_node_id == old(self).our_node_id,
            match event {
                ConnectionManagerEvent::PeerConnected(conn) => ({
                    let node = conn.peer_node_id;
                    let s = old(self).pool.states@;
                    let i = find_node(s, node);
                    let existing: Option<PeerConnection> = if i < s.len() {
                        s[i].connection
                    } else {
                        None
                    };
                    let linger = old(self).config.connection_tie_break_linger_secs;
                    let keep_existing = match existing {
                        Some(ex) => ex.connected && ex.age_secs < STALE_CONNECTION_AGE_SECS
                            && !spec_tie_break(
                            old(self).our_node_id,
                            ex.peer_node_id,
                            ex.direction,
                            conn.direction,
                        ),
                        None => false,
                    };
                    if keep_existing {
                        &&& final(self).pool.states@ == s
                        &&& final(self).connection_stats@ == old(self).connection_stats@
                        &&& final(self).status == old(self).status
                        &&& actions@ =~= seq![
                            ConnectivityAction::CancelDial(node),
                            ConnectivityAction::DelayedClose(conn.id, linger),
                        ]
                    } else {
                        let close_existing: Seq<ConnectivityAction> = match existing {
                            Some(ex) => if ex.connected {
                                seq![
                                    ConnectivityAction::DelayedClose(ex.id, linger),
                                    ConnectivityAction::Publish(
                                        ConnectivityEvent::PeerConnectionWillClose(
                                            node,
                                            ex.direction,
                                        ),
                                    ),
                                ]
                            } else {
                                Seq::empty()
                            },
                            None => Seq::empty(),
                        };
                        let old_status = if i < s.len() {
                            s[i].status
                        } else {
                            ConnectionStatus::NotPresent
                        };
                        let new_status = if conn.connected {
                            ConnectionStatus::Connected
                        } else {
                            ConnectionStatus::Disconnected
                        };
                        let entry = PeerConnectionState {
                            node_id: node,
                            status: new_status,
                            connection: Some(conn),
                        };
                        let pool2 = if i < s.len() {
                            s.update(i, entry)
                        } else {
                            s.push(entry)
                        };
                        let next = spec_next_status(
                            old(self).status,
                            count_connected_nodes_upto(pool2, pool2.len() as int),
                            count_connected_clients_upto(pool2, pool2.len() as int),
                            old(self).config.min_connectivity as int,
                        );
                        &&& final(self).pool.states@ =~= pool2
                        &&& final(self).status == next
                        &&& final(self).connection_stats@ =~= (if new_status is Connected {
                            spec_stats_after_success(old(self).connection_stats@, node)
                        } else {
                            old(self).connection_stats@
                        })
                        &&& actions@ =~= seq![ConnectivityAction::CancelDial(node)]
                            + close_existing + spec_status_change_actions(
                            old_status,
                            new_status,
                            node,
                        ) + opt_event_actions(spec_transition_event(old(self).status, next))
                    }
                }),
                ConnectionManagerEvent::PeerDisconnected(node) => ({
                    let s = old(self).pool.states@;
                    let i = find_node(s, node);
                    let old_status = if i < s.len() {
                        s[i].status
                    } else {
                        ConnectionStatus::NotPresent
                    };
                    let entry = PeerConnectionState {
                        node_id: node,
                        status: ConnectionStatus::Disconnected,
                        connection: if i < s.len() {
                            s[i].connection
                        } else {
                            None
                        },
                    };
                    let pool2 = if i < s.len() {
                        s.update(i, entry)
                    } else {
                        s.push(entry)
                    };
                    let j = find_stat(old(self).connection_stats@, node);
                    let next = spec_next_status(
                        old(self).status,
                        count_connected_nodes_upto(pool2, pool2.len() as int),
                        count_connected_clients_upto(pool2, pool2.len() as int),
                        old(self).config.min_connectivity as int,
                    );
                    &&& final(self).pool.states@ =~= pool2
                    &&& final(self).status == next
                    &&& final(self).connection_stats@ =~= (if j < old(
                        self,
                    ).connection_stats@.len() {
                        old(self).connection_stats@.remove(j)
                    } else {
                        old(self).connection_stats@
                    })
                    &&& actions@ =~= spec_status_change_actions(
                        old_status,
                        ConnectionStatus::Disconnected,
                        node,
                    ) + opt_event_actions(spec_transition_event(old(self).status, next))
                }),
                ConnectionManagerEvent::PeerConnectFailed(node, dial_cancelled) => ({
                    let s = old(self).pool.states@;
                    let i = find_node(s, node);
                    let old_status = if i < s.len() {
                        s[i].status
                    } else {
                        ConnectionStatus::NotPresent
                    };
                    let entry = PeerConnectionState {
                        node_id: node,
                        status: ConnectionStatus::Failed,
                        connection: if i < s.len() {
                            s[i].connection
                        } else {
                            None
                        },
                    };
                    let pool2 = if i < s.len() {
                        s.update(i, entry)
                    } else {
                        s.push(entry)
                    };
                    let counted = !dial_cancelled && !(old(self).status is Offline);
                    let failure_actions: Seq<ConnectivityAction> = if counted
                        && spec_failure_reaches_limit(
                        old(self).connection_stats@,
                        node,
                        old(self).config.max_failures_mark_offline,
                    ) {
                        seq![ConnectivityAction::MarkPeerOffline(node)]
                    } else {
                        Seq::empty()
                    };
                    let next = spec_next_status(
                        old(self).status,
                        count_connected_nodes_upto(pool2, pool2.len() as int),
                        count_connected_clients_upto(pool2, pool2.len() as int),
                        old(self).config.min_connectivity as int,
                    );
                    &&& final(self).pool.states@ =~= pool2
                    &&& final(self).status == next
                    &&& final(self).connection_stats@ =~= (if counted {
                        spec_stats_after_failure(
                            old(self).connection_stats@,
                            node,
                            old(self).config.max_failures_mark_offline,
                        )
                    } else {
                        old(self).connection_stats@
                    })
                    &&& actions@ =~= failure_actions + spec_status_change_actions(
                        old_status,
                        ConnectionStatus::Failed,
                        node,
                    ) + opt_event_actions(spec_transition_event(old(self).status, next))
                }),
            },
    {
        let mut actions: Vec<ConnectivityAction> = Vec::new();
        match event {
            ConnectionManagerEvent::PeerConnected(conn) => {
                let node = conn.peer_node_id;
                let linger = self.config.connection_tie_break_linger_secs;
                actions.push(ConnectivityAction::CancelDial(node));
                let ghost s = self.pool.states@;
                let ghost close_start = actions@;
                proof {
                    crate::connection_pool::lemma_find_node_props(s, node);
                    assert(close_start =~= seq![ConnectivityAction::CancelDial(node)]);
                }
                match self.pool.get_connection(node) {
                    Some(ex) => {
                        if !ex.is_connected() {
                            // The record is dead: replace it with the new
                            // connection below.
                        } else if ex.age() >= STALE_CONNECTION_AGE_SECS {
                            actions.push(ConnectivityAction::DelayedClose(ex.id, linger));
                            actions.push(
                                ConnectivityAction::Publish(
                                    ConnectivityEvent::PeerConnectionWillClose(
                                        node,
                                        ex.direction,
                                    ),
                                ),
                            );
                        } else if self.tie_break_existing_connection(ex, &conn) {
                            actions.push(ConnectivityAction::DelayedClose(ex.id, linger));
                            actions.push(
                                ConnectivityAction::Publish(
                                    ConnectivityEvent::PeerConnectionWillClose(
                                        node,
                                        ex.direction,
                                    ),
                                ),
                            );
                        } else {
                            actions.push(ConnectivityAction::DelayedClose(conn.id, linger));
                            proof {
                                assert(actions@ =~= seq![
                                    ConnectivityAction::CancelDial(node),
                                    ConnectivityAction::DelayedClose(conn.id, linger),
                                ]);
                            }
                            return actions;
                        }
                    },
                    None => {},
                }
                let ghost close_seq = actions@.skip(1);
                proof {
                    assert(actions@ =~= seq![ConnectivityAction::CancelDial(node)] + close_seq);
                }
                let ghost conn_spec = conn;
                let old_status = self.pool.set_status(node, ConnectionStatus::Connected);
                let ghost s1 = self.pool.states@;
                proof {
                    let i = find_node(s, node);
                    if i < s.len() {
                        lemma_find_node_same_ids(s1, s, node);
                    } else {
                        lemma_find_node_push(
                            s,
                            PeerConnectionState {
                                node_id: node,
                                status: ConnectionStatus::Connected,
                                connection: None,
                            },
                            node,
                        );
                    }
                }
                let new_status = self.pool.insert_connection(conn);
                proof {
                    let i = find_node(s, node);
                    let entry = PeerConnectionState {
                        node_id: node,
                        status: if conn_spec.connected {
                            ConnectionStatus::Connected
                        } else {
                            ConnectionStatus::Disconnected
                        },
                        connection: Some(conn_spec),
                    };
                    if i < s.len() {
                        assert(self.pool.states@ =~= s.update(i, entry));
                    } else {
                        assert(self.pool.states@ =~= s.push(entry));
                    }
                }
                let ghost pre_tail = actions@;
                match new_status {
                    ConnectionStatus::Connected => {
                        self.mark_peer_succeeded(node);
                        actions.push(
                            ConnectivityAction::Publish(ConnectivityEvent::PeerConnected(node)),
                        );
                    },
                    ConnectionStatus::Disconnected => {
                        match old_status {
                            ConnectionStatus::Connected => {
                                actions.push(
                                    ConnectivityAction::Publish(
                                        ConnectivityEvent::PeerDisconnected(node),
                                    ),
                                );
                            },
                            _ => {},
                        }
                    },
                    _ => {},
                }
                proof {
                    assert(actions@ =~= pre_tail + spec_status_change_actions(
                        old_status,
                        new_status,
                        node,
                    ));
                }
                let ghost pre_ev = actions@;
                let status_ev = self.update_connectivity_status();
                match status_ev {
                    Some(ev) => {
                        actions.push(ConnectivityAction::Publish(ev));
                    },
                    None => {},
                }
                proof {
                    assert(actions@ =~= pre_ev + opt_event_actions(status_ev));
                    assert(actions@ =~= seq![ConnectivityAction::CancelDial(node)] + close_seq
                        + spec_status_change_actions(old_status, new_status, node)
                        + opt_event_actions(status_ev));
                }
                actions
            },
            ConnectionManagerEvent::PeerDisconnected(node) => {
                let ghost s = self.pool.states@;
                self.remove_stat(node);
                let old_status = self.pool.set_status(node, ConnectionStatus::Disconnected);
                match old_status {
                    ConnectionStatus::Connected => {
                        actions.push(
                            ConnectivityAction::Publish(ConnectivityEvent::PeerDisconnected(node)),
                        );
                    },
                    _ => {},
                }
                match self.update_connectivity_status() {
                    Some(ev) => {
                        actions.push(ConnectivityAction::Publish(ev));
                    },
                    None => {},
                }
                actions
            },
            ConnectionManagerEvent::PeerConnectFailed(node, dial_cancelled) => {
                if !dial_cancelled {
                    let failure_actions = self.handle_peer_connection_failure(node);
                    let mut k: usize = 0;
                    while k < failure_actions.len()
                        invariant
                            0 <= k <= failure_actions@.len(),
                            actions@ =~= failure_actions@.take(k as int),
                        decreases failure_actions@.len() - k,
                    {
                        actions.push(failure_actions[k]);
                        assert(actions@ =~= failure_actions@.take(k + 1));
                        k += 1;
                    }
                    assert(failure_actions@.take(failure_actions@.len() as int)
                        =~= failure_actions@);
                }
                let old_status = self.pool.set_status(node, ConnectionStatus::Failed);
                actions.push(
                    ConnectivityAction::Publish(ConnectivityEvent::PeerConnectFailed(node)),
                );
                match self.update_connectivity_status() {
                    Some(ev) => {
                        actions.push(ConnectivityAction::Publish(ev));
                    },
                    None => {},
                }
                actions
            },
        }
    }
}

} // verus!
