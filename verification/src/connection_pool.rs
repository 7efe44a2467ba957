//! The pool of per-peer connection states owned by the connectivity
//! manager: one record per node id, holding the connection status and, when
//! live, the connection bookkeeping itself.

use vstd::prelude::*;
use crate::connection::PeerConnection;

verus! {

/// The connection status of one peer.
#[derive(Debug, Clone, Copy, PartialEq, Eq, Structural)]
pub enum ConnectionStatus {
    /// The peer has no record in the pool.
    NotPresent,
    /// A dial is in flight.
    Connecting,
    /// A live connection is held.
    Connected,
    /// The last connection ended.
    Disconnected,
    /// The last dial failed.
    Failed,
}

/// The record kept for one peer.
#[derive(Debug)]
pub struct PeerConnectionState {
    /// The peer's node identifier.
    pub node_id: u64,
    /// The peer's connection status.
    pub status: ConnectionStatus,
    /// The live connection, when one is held.
    pub connection: Option<PeerConnection>,
}

/// The first index holding this node id; the length when none does.
pub open spec fn find_node(s: Seq<PeerConnectionState>, node_id: u64) -> int
    decreases s.len(),
{
    if s.len() == 0 {
        0
    } else if s[0].node_id == node_id {
        0
    } else {
        1 + find_node(s.drop_first(), node_id)
    }
}

/// Whether the pool holds a record for this node id.
pub open spec fn has_node(s: Seq<PeerConnectionState>, node_id: u64) -> bool {
    exists|i: int| 0 <= i < s.len() && s[i].node_id == node_id
}

/// Whether a record counts as a connected full node.
pub open spec fn is_connected_node(st: PeerConnectionState) -> bool {
    st.status is Connected && match st.connection {
        Some(c) => c.peer_features.is_node_spec(),
        None => false,
    }
}

/// Whether a record counts as a connected client.
pub open spec fn is_connected_client(st: PeerConnectionState) -> bool {
    st.status is Connected && match st.connection {
        Some(c) => !c.peer_features.is_node_spec(),
        None => false,
    }
}

/// Number of records among the first `k` that are connected full nodes.
pub open spec fn count_connected_nodes_upto(s: Seq<PeerConnectionState>, k: int) -> int
    decreases k,
{
    if k <= 0 {
        0
    } else {
        count_connected_nodes_upto(s, k - 1) + if is_connected_node(s[k - 1]) {
            1int
        } else {
            0int
        }
    }
}

/// Number of records among the first `k` that are connected clients.
pub open spec fn count_connected_clients_upto(s: Seq<PeerConnectionState>, k: int) -> int
    decreases k,
{
    if k <= 0 {
        0
    } else {
        count_connected_clients_upto(s, k - 1) + if is_connected_client(s[k - 1]) {
            1int
        } else {
            0int
        }
    }
}

/// Number of records among the first `k` with the given status.
pub open spec fn count_status_upto(
    s: Seq<PeerConnectionState>,
    status: ConnectionStatus,
    k: int,
) -> int
    decreases k,
{
    if k <= 0 {
        0
    } else {
        count_status_upto(s, status, k - 1) + if s[k - 1].status == status {
            1int
        } else {
            0int
        }
    }
}

/// The pool of per-peer connection records, one per node id.
#[derive(Debug)]
pub struct ConnectionPool {
    /// The records, at most one per node id.
    pub states: Vec<PeerConnectionState>,
}

impl ConnectionPool {
    /// An empty pool.
    pub fn new() -> (r: ConnectionPool)
        ensures
            r.states@ =~= Seq::<PeerConnectionState>::empty(),
    {
        ConnectionPool { states: Vec::new() }
    }

    /// Looks a node id up, answering its index.
    pub fn find(&self, node_id: u64) -> (r: Option<usize>)
        ensures
            match r {
                Some(i) => i as int == find_node(self.states@, node_id) && i < self.states@.len()
                    && self.states@[i as int].node_id == node_id,
                None => !has_node(self.states@, node_id) && find_node(self.states@, node_id)
                    == self.states@.len(),
            },
    {
        let ghost s = self.states@;
        proof {
            lemma_find_node_props(s, node_id);
        }
        let mut i: usize = 0;
        while i < self.states.len()
            invariant
                0 <= i <= s.len(),
                s == self.states@,
                forall|j: int| 0 <= j < i ==> s[j].node_id != node_id,
            decreases s.len() - i,
        {
            if self.states[i].node_id == node_id {
                proof {
                    lemma_find_node_props(s, node_id);
                    let f = find_node(s, node_id);
                    if f < i {
                        assert(s[f].node_id != node_id);
                    }
                    if f > i {
                        assert(s[i as int].node_id != node_id);
                    }
                }
                return Some(i);
            }
            i += 1;
        }
        proof {
            lemma_find_node_props(s, node_id);
            if has_node(s, node_id) {
                let w = choose|w: int| 0 <= w < s.len() && s[w].node_id == node_id;
                assert(false);
            }
        }
        None
    }

    /// The status recorded for a node id; `NotPresent` when none is.
    pub fn get_connection_status(&self, node_id: u64) -> (r: ConnectionStatus)
        ensures
            ({
                let i = find_node(self.states@, node_id);
                if i < self.states@.len() {
                    r == self.states@[i].status
                } else {
                    r == ConnectionStatus::NotPresent
                }
            }),
    {
        match self.find(node_id) {
            Some(i) => self.states[i].status,
            None => ConnectionStatus::NotPresent,
        }
    }

    /// The record for a node id, when one exists.
    pub fn get(&self, node_id: u64) -> (r: Option<&PeerConnectionState>)
        ensures
            ({
                let i = find_node(self.states@, node_id);
                match r {
                    Some(st) => i < self.states@.len() && *st == self.states@[i],
                    None => i == self.states@.len() && !has_node(self.states@, node_id),
                }
            }),
    {
        match self.find(node_id) {
            Some(i) => Some(&self.states[i]),
            None => None,
        }
    }

    /// The live connection recorded for a node id, when one is held.
    pub fn get_connection(&self, node_id: u64) -> (r: Option<&PeerConnection>)
        ensures
            ({
                let i = find_node(self.states@, node_id);
                match r {
                    Some(c) => i < self.states@.len() && self.states@[i].connection == Some(*c),
                    None => i == self.states@.len() || self.states@[i].connection is None,
                }
            }),
    {
        match self.find(node_id) {
            Some(i) => {
                match &self.states[i].connection {
                    Some(c) => Some(c),
                    None => None,
                }
            },
            None => None,
        }
    }

    /// Sets the status recorded for a node id, creating the record when the
    /// peer is new, and answers the previous status.
    pub fn set_status(&mut self, node_id: u64, status: ConnectionStatus) -> (old_status:
        ConnectionStatus)
        ensures
            ({
                let i = find_node(old(self).states@, node_id);
                if i < old(self).states@.len() {
                    old_status == old(self).states@[i].status && final(self).states@ =~= old(self).states@.update(
                        i,
                        PeerConnectionState {
                            node_id,
                            status,
                            connection: old(self).states@[i].connection,
                        },
                    )
                } else {
                    old_status == ConnectionStatus::NotPresent && final(self).states@ =~= old(self).states@.push(PeerConnectionState { node_id, status, connection: None })
                }
            }),
    {
        match self.find(node_id) {
            Some(i) => {
                let prev = self.states[i].status;
                let ghost pre = self.states@;
                let old_entry = self.states.remove(i);
                self.states.insert(
                    i,
                    PeerConnectionState { node_id, status, connection: old_entry.connection },
                );
                proof {
                    assert(self.states@ =~= pre.update(
                        i as int,
                        PeerConnectionState { node_id, status, connection: pre[i as int].connection },
                    ));
                }
                prev
            },
            None => {
                self.states.push(PeerConnectionState { node_id, status, connection: None });
                ConnectionStatus::NotPresent
            },
        }
    }

    /// Records a live connection for its peer, setting the status to
    /// `Connected` (or `Disconnected` when the handle is already dead), and
    /// answers the new status.
    pub fn insert_connection(&mut self, conn: PeerConnection) -> (new_status: ConnectionStatus)
        ensures
            new_status == (if conn.connected {
                ConnectionStatus::Connected
            } else {
                ConnectionStatus::Disconnected
            }),
            ({
                let i = find_node(old(self).states@, conn.peer_node_id);
                let entry = PeerConnectionState {
                    node_id: conn.peer_node_id,
                    status: new_status,
                    connection: Some(conn),
                };
                if i < old(self).states@.len() {
                    final(self).states@ =~= old(self).states@.update(i, entry)
                } else {
                    final(self).states@ =~= old(self).states@.push(entry)
                }
            }),
    {
        let status = if conn.is_connected() {
            ConnectionStatus::Connected
        } else {
            ConnectionStatus::Disconnected
        };
        let node_id = conn.peer_node_id;
        match self.find(node_id) {
            Some(i) => {
                let ghost pre = self.states@;
                self.states.remove(i);
                self.states.insert(
                    i,
                    PeerConnectionState { node_id, status, connection: Some(conn) },
                );
                proof {
                    assert(self.states@ =~= pre.update(
                        i as int,
                        PeerConnectionState { node_id, status, connection: Some(conn) },
                    ));
                }
            },
            None => {
                self.states.push(PeerConnectionState { node_id, status, connection: Some(conn) });
            },
        }
        status
    }

    /// Removes the record of a node id, answering it when one existed.
    pub fn remove(&mut self, node_id: u64) -> (r: Option<PeerConnectionState>)
        ensures
            ({
                let i = find_node(old(self).states@, node_id);
                match r {
                    Some(st) => i < old(self).states@.len() && st == old(self).states@[i] && final(self).states@ =~= old(self).states@.remove(i),
                    None => i == old(self).states@.len() && final(self).states@ =~= old(self).states@,
                }
            }),
    {
        match self.find(node_id) {
            Some(i) => Some(self.states.remove(i)),
            None => None,
        }
    }

    /// Counts all records.
    pub fn count_entries(&self) -> (r: usize)
        ensures
            r == self.states@.len(),
    {
        self.states.len()
    }

    /// Counts connected full nodes.
    pub fn count_connected_nodes(&self) -> (r: usize)
        ensures
            r == count_connected_nodes_upto(self.states@, self.states@.len() as int),
    {
        let ghost s = self.states@;
        let mut n: usize = 0;
        let mut i: usize = 0;
        while i < self.states.len()
            invariant
                0 <= i <= s.len(),
                s == self.states@,
                n == count_connected_nodes_upto(s, i as int),
                n <= i,
            decreases s.len() - i,
        {
            let st = &self.states[i];
            let counts = match &st.connection {
                Some(c) => {
                    match st.status {
                        ConnectionStatus::Connected => c.peer_features.is_node(),
                        _ => false,
                    }
                },
                None => false,
            };
            assert(counts == is_connected_node(s[i as int]));
            if counts {
                n += 1;
            }
            i += 1;
        }
        n
    }

    /// Counts connected clients.
    pub fn count_connected_clients(&self) -> (r: usize)
        ensures
            r == count_connected_clients_upto(self.states@, self.states@.len() as int),
    {
        let ghost s = self.states@;
        let mut n: usize = 0;
        let mut i: usize = 0;
        while i < self.states.len()
            invariant
                0 <= i <= s.len(),
                s == self.states@,
                n == count_connected_clients_upto(s, i as int),
                n <= i,
            decreases s.len() - i,
        {
            let st = &self.states[i];
            let counts = match &st.connection {
                Some(c) => {
                    match st.status {
                        ConnectionStatus::Connected => !c.peer_features.is_node(),
                        _ => false,
                    }
                },
                None => false,
            };
            assert(counts == is_connected_client(s[i as int]));
            if counts {
                n += 1;
            }
            i += 1;
        }
        n
    }

    /// Counts records with the given status.
    pub fn count_with_status(&self, status: ConnectionStatus) -> (r: usize)
        ensures
            r == count_status_upto(self.states@, status, self.states@.len() as int),
    {
        let ghost s = self.states@;
        let mut n: usize = 0;
        let mut i: usize = 0;
        while i < self.states.len()
            invariant
                0 <= i <= s.len(),
                s == self.states@,
                n == count_status_upto(s, status, i as int),
                n <= i,
            decreases s.len() - i,
        {
            if self.states[i].status == status {
                n += 1;
            }
            i += 1;
        }
        n
    }

    /// Removes every record in `Failed` or `Disconnected` state, answering
    /// the node ids removed; the remaining records keep their order.
    pub fn drain_failed_and_disconnected(&mut self) -> (removed: Vec<u64>)
        ensures
            final(self).states@ =~= old(self).states@.filter(
                |st: PeerConnectionState| !(st.status is Failed || st.status is Disconnected),
            ),
            removed@ =~= old(self).states@.filter(
                |st: PeerConnectionState| st.status is Failed || st.status is Disconnected,
            ).map_values(|st: PeerConnectionState| st.node_id),
    {
        let ghost s0 = self.states@;
        let mut kept: Vec<PeerConnectionState> = Vec::new();
        let mut removed: Vec<u64> = Vec::new();
        // Rebuild by draining from the front so records move, never clone.
        let ghost mut taken: int = 0;
        while self.states.len() > 0
            invariant
                0 <= taken <= s0.len(),
                self.states@ =~= s0.subrange(taken, s0.len() as int),
                kept@ =~= s0.take(taken).filter(
                    |st: PeerConnectionState| !(st.status is Failed || st.status is Disconnected),
                ),
                removed@ =~= s0.take(taken).filter(
                    |st: PeerConnectionState| st.status is Failed || st.status is Disconnected,
                ).map_values(|st: PeerConnectionState| st.node_id),
            decreases self.states@.len(),
        {
            let st = self.states.remove(0);
            proof {
                assert(st == s0[taken]);
                assert(s0.take(taken + 1).drop_last() =~= s0.take(taken));
                assert(s0.take(taken + 1).last() == s0[taken]);
                reveal(Seq::filter);
            }
            let is_drop = match st.status {
                ConnectionStatus::Failed => true,
                ConnectionStatus::Disconnected => true,
                _ => false,
            };
            if is_drop {
                removed.push(st.node_id);
            } else {
                kept.push(st);
            }
            proof {
                taken = taken + 1;
                assert(self.states@ =~= s0.subrange(taken, s0.len() as int));
            }
        }
        proof {
            assert(s0.take(s0.len() as int) =~= s0);
        }
        self.states = kept;
        removed
    }

    /// The node ids of connected records whose connection has no open
    /// substream and has lived at least `min_age_secs`.
    pub fn inactive_connection_ids(&self, min_age_secs: u64) -> (r: Vec<u64>)
        ensures
            r@ =~= self.states@.filter(
                |st: PeerConnectionState| is_inactive(st, min_age_secs),
            ).map_values(|st: PeerConnectionState| st.node_id),
    {
        let ghost s = self.states@;
        let mut out: Vec<u64> = Vec::new();
        let mut i: usize = 0;
        while i < self.states.len()
            invariant
                0 <= i <= s.len(),
                s == self.states@,
                out@ =~= s.take(i as int).filter(
                    |st: PeerConnectionState| is_inactive(st, min_age_secs),
                ).map_values(|st: PeerConnectionState| st.node_id),
            decreases s.len() - i,
        {
            let st = &self.states[i];
            proof {
                assert(s.take(i + 1).drop_last() =~= s.take(i as int));
                assert(s.take(i + 1).last() == s[i as int]);
                reveal(Seq::filter);
            }
            let matched = match &st.connection {
                Some(c) => {
                    match st.status {
                        ConnectionStatus::Connected => c.connected && c.substream_count == 0
                            && c.age_secs >= min_age_secs,
                        _ => false,
                    }
                },
                None => false,
            };
            assert(matched == is_inactive(s[i as int], min_age_secs));
            if matched {
                out.push(st.node_id);
            }
            i += 1;
        }
        assert(s.take(s.len() as int) =~= s);
        out
    }
}

/// Whether a record is a connected but idle connection older than the
/// reaper threshold.
pub open spec fn is_inactive(st: PeerConnectionState, min_age_secs: u64) -> bool {
    st.status is Connected && match st.connection {
        Some(c) => c.connected && c.substream_count == 0 && c.age_secs >= min_age_secs,
        None => false,
    }
}

/// Bounds and first-match correctness of the node scan.
pub proof fn lemma_find_node_props(s: Seq<PeerConnectionState>, node_id: u64)
    ensures
        0 <= find_node(s, node_id) <= s.len(),
        find_node(s, node_id) < s.len() ==> s[find_node(s, node_id)].node_id == node_id,
        forall|j: int| 0 <= j < find_node(s, node_id) ==> s[j].node_id != node_id,
        has_node(s, node_id) ==> find_node(s, node_id) < s.len(),
    decreases s.len(),
{
    if s.len() > 0 && s[0].node_id != node_id {
        lemma_find_node_props(s.drop_first(), node_id);
        let f = find_node(s, node_id);
        assert(f == 1 + find_node(s.drop_first(), node_id));
        assert forall|j: int| 0 <= j < f implies s[j].node_id != node_id by {
            if j > 0 {
                assert(s.drop_first()[j - 1] == s[j]);
            }
        }
        if f < s.len() {
            assert(s.drop_first()[f - 1] == s[f]);
        }
        if has_node(s, node_id) {
            let w = choose|w: int| 0 <= w < s.len() && s[w].node_id == node_id;
            assert(w > 0);
            assert(s.drop_first()[w - 1] == s[w]);
            assert(has_node(s.drop_first(), node_id));
        }
    }
}

} // verus!