//! The model of a live peer connection as the connectivity layer sees it.
//!
//! A connection is owned by an actor next to the transport; what circulates
//! here is its bookkeeping: identifiers, direction, features, age and
//! substream counters. The transport itself never enters this crate.

use vstd::prelude::*;

verus! {

/// Who initiated the connection.
#[derive(Debug, Clone, Copy, PartialEq, Eq, Structural)]
pub enum ConnectionDirection {
    /// The peer dialled us.
    Inbound,
    /// We dialled the peer.
    Outbound,
}

/// The advertised role of the peer.
#[derive(Debug, Clone, Copy, PartialEq, Eq, Structural)]
pub enum PeerFeatures {
    /// A full communication node.
    CommunicationNode,
    /// A client that connects but does not route.
    CommunicationClient,
}

impl PeerFeatures {
    /// Whether the peer is a full node.
    pub open spec fn is_node_spec(&self) -> bool {
        self is CommunicationNode
    }

    /// Reports whether the peer is a full node.
    pub fn is_node(&self) -> (r: bool)
        ensures
            r == self.is_node_spec(),
    {
        match self {
            PeerFeatures::CommunicationNode => true,
            PeerFeatures::CommunicationClient => false,
        }
    }
}

/// Bookkeeping of one live peer connection.
#[derive(Debug)]
pub struct PeerConnection {
    /// Monotonic identifier of this connection.
    pub id: u64,
    /// Node identifier of the peer.
    pub peer_node_id: u64,
    /// The peer's advertised role.
    pub peer_features: PeerFeatures,
    /// The peer's address, as opaque bytes.
    pub address: Vec<u8>,
    /// Who initiated the connection.
    pub direction: ConnectionDirection,
    /// Seconds since the connection was established.
    pub age_secs: u64,
    /// Number of substreams currently open.
    pub substream_count: u64,
    /// Number of live handles to the connection actor.
    pub handle_count: u64,
    /// Whether the actor still accepts requests.
    pub connected: bool,
}

impl PeerConnection {
    /// Builds the bookkeeping record of a freshly established connection.
    pub fn new(
        id: u64,
        peer_node_id: u64,
        peer_features: PeerFeatures,
        address: Vec<u8>,
        direction: ConnectionDirection,
    ) -> (r: PeerConnection)
        ensures
            r.id == id,
            r.peer_node_id == peer_node_id,
            r.peer_features == peer_features,
            r.address@ == address@,
            r.direction == direction,
            r.age_secs == 0,
            r.substream_count == 0,
            r.handle_count == 1,
            r.connected,
    {
        PeerConnection {
            id,
            peer_node_id,
            peer_features,
            address,
            direction,
            age_secs: 0,
            substream_count: 0,
            handle_count: 1,
            connected: true,
        }
    }

    /// The node identifier of the peer.
    pub fn peer_node_id(&self) -> (r: u64)
        ensures
            r == self.peer_node_id,
    {
        self.peer_node_id
    }

    /// The peer's advertised role.
    pub fn peer_features(&self) -> (r: PeerFeatures)
        ensures
            r == self.peer_features,
    {
        self.peer_features
    }

    /// Who initiated the connection.
    pub fn direction(&self) -> (r: ConnectionDirection)
        ensures
            r == self.direction,
    {
        self.direction
    }

    /// The peer's address bytes.
    pub fn address(&self) -> (r: &Vec<u8>)
        ensures
            r@ == self.address@,
    {
        &self.address
    }

    /// The connection identifier.
    pub fn id(&self) -> (r: u64)
        ensures
            r == self.id,
    {
        self.id
    }

    /// Whether the connection actor still accepts requests.
    pub fn is_connected(&self) -> (r: bool)
        ensures
            r == self.connected,
    {
        self.connected
    }

    /// Seconds since the connection was established.
    pub fn age(&self) -> (r: u64)
        ensures
            r == self.age_secs,
    {
        self.age_secs
    }

    /// Number of substreams currently open.
    pub fn substream_count(&self) -> (r: u64)
        ensures
            r == self.substream_count,
    {
        self.substream_count
    }

    /// Number of live handles to the connection actor.
    pub fn handle_count(&self) -> (r: u64)
        ensures
            r == self.handle_count,
    {
        self.handle_count
    }
}

/// A substream on which a protocol has been negotiated.
#[derive(Debug)]
pub struct NegotiatedSubstream<TSubstream> {
    /// The protocol agreed on, as its identifier bytes.
    pub protocol: Vec<u8>,
    /// The stream itself.
    pub stream: TSubstream,
}

impl<TSubstream> NegotiatedSubstream<TSubstream> {
    /// Pairs a stream with the protocol negotiated on it.
    pub fn new(protocol: Vec<u8>, stream: TSubstream) -> (r: NegotiatedSubstream<TSubstream>)
        ensures
            r.protocol@ == protocol@,
            r.stream == stream,
    {
        NegotiatedSubstream { protocol, stream }
    }
}

} // verus!
