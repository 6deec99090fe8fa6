//! The client side: building outbound queries, picking their responses
//! apart, and the receive-path dispatch step that tells responses for
//! in-flight transactions apart from inbound queries.

use vstd::prelude::*;

use crate::addrs::PeerAddr;
use crate::errors::ErrorKind;
use crate::id::NodeId;
use crate::msg::{Message, MessageType, PortType, Query, Request, Response};
use crate::node::Node;
use crate::outside::random_u16;
use crate::txmap::{spec_deliver, TransactionMap};

verus! {

/// Wraps a query as a request under a freshly drawn transaction id.
pub fn build_request(query: Query) -> (r: Request)
    ensures
        r.version is None,
        !r.read_only,
        r.query == query,
{
    Request { transaction_id: random_u16(), version: None, read_only: false, query }
}

/// The `ping` query this node would send.
pub fn ping_query(local_id: NodeId) -> (r: Request)
    ensures
        r.version is None,
        !r.read_only,
        r.query matches Query::Ping { id } && id == local_id,
{
    build_request(Query::Ping { id: local_id })
}

/// The `find_node` query this node would send.
pub fn find_node_query(local_id: NodeId, target: NodeId) -> (r: Request)
    ensures
        r.version is None,
        !r.read_only,
        r.query matches Query::FindNode { id, target: t } && id == local_id && t == target,
{
    build_request(Query::FindNode { id: local_id, target })
}

/// The `get_peers` query this node would send.
pub fn get_peers_query(local_id: NodeId, info_hash: NodeId) -> (r: Request)
    ensures
        r.version is None,
        !r.read_only,
        r.query matches Query::GetPeers { id, info_hash: ih } && id == local_id && ih == info_hash,
{
    build_request(Query::GetPeers { id: local_id, info_hash })
}

/// The `announce_peer` query this node would send: an implied port leaves
/// the port field empty, a named port fills it.
pub fn announce_peer_query(
    local_id: NodeId,
    token: Vec<u8>,
    info_hash: NodeId,
    port_type: PortType,
) -> (r: Request)
    ensures
        r.version is None,
        !r.read_only,
        r.query matches Query::AnnouncePeer {
            id,
            implied_port,
            port,
            info_hash: ih,
            token: tok,
        } && id == local_id && ih == info_hash && tok@ == token@ && (match port_type {
            PortType::Implied => implied_port && port is None,
            PortType::Port(p) => !implied_port && port == Some(p),
        }),
{
    let (port, implied_port) = match port_type {
        PortType::Implied => (None, true),
        PortType::Port(p) => (Some(p), false),
    };
    build_request(Query::AnnouncePeer { id: local_id, implied_port, port, info_hash, token })
}

/// Reads a `ping` or `announce_peer` reply: only the bare-id shape is
/// accepted, anything else is an invalid response.
pub fn node_id_from_response(resp: Response) -> (r: Result<NodeId, ErrorKind>)
    ensures
        resp matches Response::OnlyId { id } ==> r == Result::<NodeId, ErrorKind>::Ok(id),
        !(resp matches Response::OnlyId { .. }) ==> r == Result::<NodeId, ErrorKind>::Err(
            ErrorKind::InvalidResponse,
        ),
{
    match resp {
        Response::OnlyId { id } => Ok(id),
        _ => Err(ErrorKind::InvalidResponse),
    }
}

/// What a `find_node` reply carries.
pub struct FindNodeResponse {
    /// The answering node's id.
    pub id: NodeId,
    /// The contacts it offered.
    pub nodes: Vec<Node>,
}

/// Reads a `find_node` reply: only the next-hop shape is accepted.
pub fn find_node_from_response(resp: Response) -> (r: Result<FindNodeResponse, ErrorKind>)
    ensures
        resp matches Response::NextHop { id, token, nodes } ==> (r matches Ok(fr) && fr.id == id
            && fr.nodes == nodes),
        !(resp matches Response::NextHop { .. }) ==> r == Result::<
            FindNodeResponse,
            ErrorKind,
        >::Err(ErrorKind::InvalidResponse),
{
    match resp {
        Response::NextHop { id, token: _, nodes } => Ok(FindNodeResponse { id, nodes }),
        _ => Err(ErrorKind::InvalidResponse),
    }
}

/// What a `get_peers` reply carries: stored peers, or contacts to try
/// next, and in either shape a token for a later announce.
pub struct GetPeersResponse {
    /// The answering node's id.
    pub id: NodeId,
    /// The token to announce with.
    pub token: Option<Vec<u8>>,
    /// Peers stored for the info-hash, when the node had any.
    pub peers: Vec<PeerAddr>,
    /// Contacts closer to the info-hash, when it had none.
    pub nodes: Vec<Node>,
}

/// Reads a `get_peers` reply: both its shapes are accepted, the bare-id
/// shape is not.
pub fn get_peers_from_response(resp: Response) -> (r: Result<GetPeersResponse, ErrorKind>)
    ensures
        resp matches Response::GetPeers { id, token, peers } ==> (r matches Ok(gp) && gp.id == id
            && gp.token == token && gp.peers == peers && gp.nodes@.len() == 0),
        resp matches Response::NextHop { id, token, nodes } ==> (r matches Ok(gp) && gp.id == id
            && gp.token == token && gp.nodes == nodes && gp.peers@.len() == 0),
        resp matches Response::OnlyId { .. } ==> r == Result::<GetPeersResponse, ErrorKind>::Err(
            ErrorKind::InvalidResponse,
        ),
{
    match resp {
        Response::GetPeers { id, token, peers } => Ok(
            GetPeersResponse { id, token, peers, nodes: Vec::new() },
        ),
        Response::NextHop { id, token, nodes } => Ok(
            GetPeersResponse { id, token, peers: Vec::new(), nodes },
        ),
        Response::OnlyId { .. } => Err(ErrorKind::InvalidResponse),
    }
}

/// What the receive path decides about one decoded datagram.
pub enum DispatchOutcome {
    /// A response or error matched an in-flight transaction and was
    /// delivered to it; the stored waker, if any, should be woken.
    Delivered(Option<u64>),
    /// An inbound query for the handler, with its envelope.
    Inbound(Request),
    /// A response or error nobody was waiting for; dropped silently.
    Dropped,
}

/// The receive-dispatch step for one decoded datagram: a response or
/// error whose transaction id is in flight completes that transaction;
/// a query is handed onward; everything else is dropped.
pub fn dispatch_inbound(msg: Message, tx: &mut TransactionMap<Message>) -> (r: DispatchOutcome)
    ensures
        msg.message_type matches MessageType::Query(q) ==> {
            &&& final(tx)@ == old(tx)@
            &&& r matches DispatchOutcome::Inbound(req) && req.transaction_id
                == msg.transaction_id && req.version == msg.version && req.read_only
                == msg.read_only && req.query == q
        },
        !(msg.message_type matches MessageType::Query(_)) ==> {
            &&& final(tx)@ == spec_deliver(old(tx)@, msg.transaction_id, msg)
            &&& (old(tx)@.contains_key(msg.transaction_id) ==> r matches
                DispatchOutcome::Delivered(_))
            &&& (!old(tx)@.contains_key(msg.transaction_id)
                ==> r == DispatchOutcome::Dropped)
        },
{
    let Message { transaction_id, version, ip, read_only, message_type } = msg;
    match message_type {
        MessageType::Query(query) => DispatchOutcome::Inbound(
            Request { transaction_id, version, read_only, query },
        ),
        other => {
            let rebuilt = Message { transaction_id, version, ip, read_only, message_type: other };
            proof {
                assert(rebuilt == msg);
            }
            if tx.is_registered(transaction_id) {
                let waker = tx.deliver(transaction_id, rebuilt);
                DispatchOutcome::Delivered(waker)
            } else {
                DispatchOutcome::Dropped
            }
        },
    }
}

} // verus!
