//! The message shapes of the four Mainline DHT queries and their replies.
//! Encoding to and from bencoded datagrams happens outside the library;
//! here a message is plain data.

use vstd::prelude::*;

use crate::addrs::PeerAddr;
use crate::id::NodeId;
use crate::node::Node;

verus! {

/// A query another node may send us, or we may send it.
pub enum Query {
    /// Are you there?
    Ping { id: NodeId },
    /// Which nodes do you know near `target`?
    FindNode { id: NodeId, target: NodeId },
    /// Which peers announce `info_hash`? Also hands back a token.
    GetPeers { id: NodeId, info_hash: NodeId },
    /// I am a peer for `info_hash`; the token proves I asked recently.
    AnnouncePeer {
        id: NodeId,
        implied_port: bool,
        port: Option<u16>,
        info_hash: NodeId,
        token: Vec<u8>,
    },
}

/// A reply to one of the queries.
pub enum Response {
    /// Reply to `ping` and `announce_peer`: just the sender's id.
    OnlyId { id: NodeId },
    /// Reply to `find_node`, and to `get_peers` when no peer is stored:
    /// the closest nodes known.
    NextHop { id: NodeId, token: Option<Vec<u8>>, nodes: Vec<Node> },
    /// Reply to `get_peers` when peers are stored.
    GetPeers { id: NodeId, token: Option<Vec<u8>>, peers: Vec<PeerAddr> },
}

/// What a datagram carries.
pub enum MessageType {
    /// An inbound or outbound query.
    Query(Query),
    /// A reply correlated by transaction id.
    Response(Response),
    /// A BEP-5 error: code and text.
    Error { code: u32, text: String },
}

/// How an announce names its port: taken from the UDP source, or given.
#[derive(Clone, Copy, PartialEq, Eq, Structural, Debug)]
pub enum PortType {
    /// Use the announcing datagram's source port.
    Implied,
    /// Use this port.
    Port(u16),
}

/// A whole datagram, decoded.
pub struct Message {
    /// Echoed between query and response to correlate them.
    pub transaction_id: u16,
    /// Optional client version tag.
    pub version: Option<Vec<u8>>,
    /// Optional hint of the address the sender observed for us.
    pub ip: Option<PeerAddr>,
    /// The sender asks not to be added to routing tables.
    pub read_only: bool,
    /// The payload.
    pub message_type: MessageType,
}

/// A query with its correlation envelope: what the node sends out, and
/// what the receive path hands to the query handler.
pub struct Request {
    /// The id to echo in the reply.
    pub transaction_id: u16,
    /// Optional client version tag.
    pub version: Option<Vec<u8>>,
    /// The sender asks not to be added to routing tables.
    pub read_only: bool,
    /// The query itself.
    pub query: Query,
}

} // verus!
