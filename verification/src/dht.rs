//! The query handler: the server side of the four Mainline DHT queries,
//! with their token discipline and read-only rule, over the routing table
//! and the peer store.

use vstd::prelude::*;

use crate::addrs::PeerAddr;
use crate::errors::{request_error_code, request_error_text, ErrorKind, spec_request_error_code};
use crate::id::NodeId;
use crate::msg::{Message, MessageType, PortType, Query, Request, Response};
use crate::node::{Node, NodeState};
use crate::outside::random_bytes20;
use crate::routing::{records_caller, secrets_accept, token_of, FindNodeResult, RoutingTable};
use crate::store::PeerStore;

verus! {

/// One DHT node's state: its routing table (which carries its id and
/// token secrets) and the peers announced to it.
pub struct Dht {
    /// Contacts and token secrets.
    pub table: RoutingTable,
    /// Who announced what.
    pub store: PeerStore,
}

impl Dht {
    /// The node is well-formed when its routing table is.
    pub open spec fn wf(&self) -> bool {
        self.table.wf()
    }

    /// The node's own identifier.
    pub open spec fn local_spec(&self) -> Seq<u8> {
        self.table.local_id@
    }

    /// A fresh node under the given id: empty table, empty store.
    pub fn new(local_id: NodeId) -> (r: Dht)
        ensures
            r.wf(),
            r.table.local_id == local_id,
            r.table.total() == 0,
            forall|ih: Seq<u8>| (#[trigger] r.store.peers_of(ih)).len() == 0,
    {
        Dht { table: RoutingTable::new(local_id), store: PeerStore::new() }
    }

    /// A fresh node under a randomly drawn id.
    pub fn with_random_id() -> (r: Dht)
        ensures
            r.wf(),
            r.table.total() == 0,
            forall|ih: Seq<u8>| (#[trigger] r.store.peers_of(ih)).len() == 0,
    {
        let bytes = random_bytes20();
        match NodeId::from_bytes(&bytes) {
            Option::Some(id) => Dht::new(id),
            Option::None => vstd::pervasive::unreached(),
        }
    }

    /// Answers `ping`: records the caller (unless read-only) and returns
    /// the local id.
    pub fn handle_ping(&mut self, from: PeerAddr, id: NodeId, read_only: bool) -> (r: Result<
        Response,
        ErrorKind,
    >)
        requires
            old(self).wf(),
        ensures
            final(self).wf(),
            final(self).store == old(self).store,
            read_only ==> final(self).table == old(self).table,
            !read_only ==> records_caller(old(self).table, final(self).table, id@),
            r matches Ok(resp) && (resp matches Response::OnlyId { id: me } && me@ == old(self).local_spec()),
    {
        let _ = self.table.record_request(&id, from, read_only);
        Ok(Response::OnlyId { id: self.table.local_id })
    }

    /// Answers `find_node`: records the caller, then returns the target
    /// contact itself when the table holds it, else the closest contacts.
    pub fn handle_find_node(
        &mut self,
        from: PeerAddr,
        id: NodeId,
        target: NodeId,
        read_only: bool,
    ) -> (r: Result<Response, ErrorKind>)
        requires
            old(self).wf(),
        ensures
            final(self).wf(),
            final(self).store == old(self).store,
            read_only ==> final(self).table == old(self).table,
            !read_only ==> records_caller(old(self).table, final(self).table, id@),
            r matches Ok(resp) && (resp matches Response::NextHop { id: me, token, nodes }
                && me@ == old(self).local_spec() && token is None && {
                ||| (final(self).table.contains_id(target@) && nodes@.len() == 1
                    && nodes@[0].id_spec() == target@ && final(self).table.all_nodes().contains(
                    nodes@[0],
                ))
                ||| (!final(self).table.contains_id(target@) && final(self).table.closest_post(
                    target@,
                    nodes@,
                ))
            }),
    {
        let _ = self.table.record_request(&id, from, read_only);
        let nodes: Vec<Node> = match self.table.find_node(&target) {
            FindNodeResult::Node(node) => {
                let mut one: Vec<Node> = Vec::new();
                one.push(node);
                one
            },
            FindNodeResult::Nodes(nodes) => nodes,
        };
        Ok(Response::NextHop { id: self.table.local_id, token: None, nodes })
    }

    /// Answers `get_peers`: records the caller, issues a token bound to
    /// its address, and returns the stored peers for the info-hash, or
    /// the closest contacts when none are stored.
    pub fn handle_get_peers(
        &mut self,
        from: PeerAddr,
        id: NodeId,
        info_hash: NodeId,
        read_only: bool,
    ) -> (r: Result<Response, ErrorKind>)
        requires
            old(self).wf(),
        ensures
            final(self).wf(),
            final(self).store == old(self).store,
            read_only ==> final(self).table == old(self).table,
            !read_only ==> records_caller(old(self).table, final(self).table, id@),
            old(self).store.peers_of(info_hash@).len() > 0 ==> (r matches Ok(resp)
                && resp matches Response::GetPeers { id: me, token, peers } && me@ == old(self).local_spec() && (token matches Some(t) && t@ == token_of(
                old(self).table.token_secret@,
                from,
            ) && t@.len() == 20) && peers@ == old(self).store.peers_of(info_hash@)),
            old(self).store.peers_of(info_hash@).len() == 0 ==> (r matches Ok(resp)
                && resp matches Response::NextHop { id: me, token, nodes } && me@ == old(self).local_spec() && (token matches Some(t) && t@ == token_of(
                old(self).table.token_secret@,
                from,
            ) && t@.len() == 20) && final(self).table.closest_post(info_hash@, nodes@)),
    {
        let _ = self.table.record_request(&id, from, read_only);
        let token_bytes = self.table.generate_token(from);
        let token = Some(token_bytes);
        if self.store.has_peers(&info_hash) {
            let peers = self.store.peers_for(&info_hash);
            Ok(Response::GetPeers { id: self.table.local_id, token, peers })
        } else {
            let nodes = self.table.find_nodes(&info_hash);
            Ok(Response::NextHop { id: self.table.local_id, token, nodes })
        }
    }

    /// Answers `announce_peer`: records the caller, verifies the token
    /// against the caller's address, computes the effective peer address
    /// (source address when the port is implied, the named port
    /// otherwise), appends it to the store, and returns the local id.
    /// A bad token and a missing port each yield the matching error.
    pub fn handle_announce_peer(
        &mut self,
        from: PeerAddr,
        id: NodeId,
        implied_port: bool,
        port: Option<u16>,
        info_hash: NodeId,
        token: Vec<u8>,
        read_only: bool,
    ) -> (r: Result<Response, ErrorKind>)
        requires
            old(self).wf(),
        ensures
            final(self).wf(),
            read_only ==> final(self).table == old(self).table,
            !read_only ==> records_caller(old(self).table, final(self).table, id@),
            !secrets_accept(
                old(self).table.token_secret@,
                old(self).table.token_secret_previous@,
                token@,
                from,
            ) ==> r == Result::<Response, ErrorKind>::Err(ErrorKind::InvalidToken) && final(self).store == old(self).store,
            secrets_accept(
                old(self).table.token_secret@,
                old(self).table.token_secret_previous@,
                token@,
                from,
            ) ==> {
                let eff = if implied_port {
                    from
                } else {
                    PeerAddr { port: port->0, ..from }
                };
                &&& (!implied_port && port is None) ==> r == Result::<
                    Response,
                    ErrorKind,
                >::Err(ErrorKind::InsufficientAddress) && final(self).store == old(self).store
                &&& (implied_port || port is Some) ==> (r matches Ok(resp)
                    && (resp matches Response::OnlyId { id: me } && me@ == old(self).local_spec())
                    && final(self).store.peers_of(info_hash@) == old(self).store.peers_of(
                    info_hash@,
                ).push(eff) && (forall|other: Seq<u8>| other != info_hash@
                    ==> #[trigger] final(self).store.peers_of(other) == old(self).store.peers_of(
                    other,
                )))
            },
    {
        let _ = self.table.record_request(&id, from, read_only);
        if !self.table.verify_token(&token, from) {
            return Err(ErrorKind::InvalidToken);
        }
        let eff: PeerAddr = if implied_port {
            from
        } else {
            match port {
                Option::Some(p) => from.with_port(p),
                Option::None => {
                    return Err(ErrorKind::InsufficientAddress);
                },
            }
        };
        self.store.add_peer(&info_hash, eff);
        Ok(Response::OnlyId { id: self.table.local_id })
    }

    /// Dispatches one inbound query and wraps the outcome as the reply
    /// datagram: the handler's response, or the matching BEP-5 error.
    /// The reply echoes the caller's transaction id.
    pub fn handle_request(&mut self, request: Request, from: PeerAddr) -> (r: Message)
        requires
            old(self).wf(),
        ensures
            final(self).wf(),
            r.transaction_id == request.transaction_id,
            r.version is None,
            r.ip is None,
            !r.read_only,
            request.query matches Query::Ping { .. } ==> (r.message_type matches
                MessageType::Response(resp) && resp matches Response::OnlyId { id: me } && me@
                == old(self).local_spec()),
            request.query matches Query::FindNode { .. } ==> (r.message_type matches
                MessageType::Response(resp) && resp matches Response::NextHop {
                id: me,
                token,
                nodes,
            } && me@ == old(self).local_spec() && token is None),
            request.query matches Query::GetPeers { .. } ==> (r.message_type matches
                MessageType::Response(resp) && (resp matches Response::GetPeers { .. }
                || resp matches Response::NextHop { .. })),
            (request.query matches Query::AnnouncePeer { token, .. } && !secrets_accept(
                old(self).table.token_secret@,
                old(self).table.token_secret_previous@,
                token@,
                from,
            )) ==> (r.message_type matches MessageType::Error { code, text } && code == 201
                && text@ == "Invalid Token"@ && final(self).store == old(self).store),
            request.query matches Query::AnnouncePeer {
                token,
                implied_port,
                port,
                info_hash,
                ..
            } ==> ({
                let accepted = secrets_accept(
                    old(self).table.token_secret@,
                    old(self).table.token_secret_previous@,
                    token@,
                    from,
                );
                &&& ((accepted && implied_port) ==> (r.message_type matches
                    MessageType::Response(resp) && resp matches Response::OnlyId { .. } && final(self).store.peers_of(info_hash@) == old(self).store.peers_of(info_hash@).push(from)))
                &&& (port matches Some(p) ==> ((accepted && !implied_port) ==> (r.message_type
                    matches MessageType::Response(resp) && resp matches Response::OnlyId { .. }
                    && final(self).store.peers_of(info_hash@) == old(self).store.peers_of(
                    info_hash@,
                ).push((PeerAddr { port: p, ..from })))))
                &&& ((accepted && !implied_port && port is None) ==> (r.message_type matches
                    MessageType::Error { code, text } && code == 201 && text@
                    == "Insufficient Address"@ && final(self).store == old(self).store))
            }),
    {
        let transaction_id = request.transaction_id;
        let read_only = request.read_only;
        let result: Result<Response, ErrorKind> = match request.query {
            Query::Ping { id } => self.handle_ping(from, id, read_only),
            Query::FindNode { id, target } => self.handle_find_node(from, id, target, read_only),
            Query::GetPeers { id, info_hash } => self.handle_get_peers(
                from,
                id,
                info_hash,
                read_only,
            ),
            Query::AnnouncePeer { id, implied_port, port, info_hash, token } => self
                .handle_announce_peer(
                from,
                id,
                implied_port,
                port,
                info_hash,
                token,
                read_only,
            ),
        };
        let message_type = match result {
            Result::Ok(response) => MessageType::Response(response),
            Result::Err(err) => {
                proof {
                    assert(spec_request_error_code(ErrorKind::InvalidToken) == 201);
                    assert(spec_request_error_code(ErrorKind::InsufficientAddress) == 201);
                }
                MessageType::Error {
                    code: request_error_code(err),
                    text: request_error_text(err),
                }
            },
        };
        Message { ip: None, transaction_id, version: None, message_type, read_only: false }
    }

    /// Fetching peers from the network needs the iterative lookup, which
    /// is not part of the core: this facade is a stub that resolves to no
    /// peers for every info-hash, reads nothing and changes nothing. The
    /// peers this node stores for others are read through the peer store.
    pub fn get_peers(&self, _info_hash: &NodeId) -> (r: Vec<PeerAddr>)
        ensures
            r@ == Seq::<PeerAddr>::empty(),
    {
        Vec::new()
    }

    /// Announcing to other nodes needs the iterative lookup, which is not
    /// part of the core; this records nothing and reports success, as the
    /// stub it stands for did.
    pub fn announce(&self, _info_hash: &NodeId, _port: PortType) -> (r: Result<(), ErrorKind>)
        ensures
            r is Ok,
    {
        Ok(())
    }

    /// Takes one successful bootstrap ping: a contact under the
    /// responder's id and address, marked freshly successful (good), is
    /// inserted, unless the table already knew the id or the bucket the
    /// id selects is full, cannot split, and has no bad node to evict.
    pub fn record_bootstrap_pong(&mut self, id: NodeId, addr: PeerAddr)
        requires
            old(self).wf(),
        ensures
            final(self).wf(),
            final(self).store == old(self).store,
            old(self).table.contains_id(id@) ==> final(self).table.buckets@ == old(self).table.buckets@,
            !old(self).table.contains_id(id@) ==> ({
                ||| (final(self).table.contains_id(id@) && (exists|n: Node|
                    n.id_spec() == id@ && n.addr == addr && n.state == NodeState::Good
                        && n.last_successful_request is Some && (final(self).table.all_nodes().to_multiset() == old(self).table.all_nodes().to_multiset()
                        .insert(n) || exists|evicted: Node|
                        old(self).table.all_nodes().to_multiset().count(evicted) > 0
                            && evicted.state == NodeState::Bad && final(self).table.all_nodes().to_multiset() == old(self).table.all_nodes()
                            .to_multiset().remove(evicted).insert(n))))
                ||| (final(self).table.all_nodes().to_multiset() == old(self).table.all_nodes().to_multiset() && !final(self).table.contains_id(id@) && old(self).table.total() >= crate::routing::K)
            }),
            old(self).table.total() < crate::routing::K ==> final(self).table.contains_id(id@),
    {
        let mut node = Node::new(id, addr);
        node.mark_successful_request();
        self.table.add_node(node);
    }
}

/// The error datagram for a query refused before any handler ran: the
/// receive path answers a query naming an unknown or unimplemented query
/// type with code 204, and a malformed or incomplete one with code 203,
/// echoing the caller's transaction id.
pub fn error_reply(transaction_id: u16, kind: ErrorKind) -> (r: Message)
    ensures
        r.transaction_id == transaction_id,
        r.version is None,
        r.ip is None,
        !r.read_only,
        r.message_type matches MessageType::Error { code, text } && code
            == spec_request_error_code(kind) && (kind == ErrorKind::UnknownQueryType ==> text@
            == "Method Unknown"@) && (kind == ErrorKind::UnimplementedRequestType ==> text@
            == "Method Unknown"@) && (kind == ErrorKind::MalformedMessage ==> text@
            == "Protocol Error"@) && (kind == ErrorKind::MissingRequiredField ==> text@
            == "Protocol Error"@),
{
    Message {
        transaction_id,
        version: None,
        ip: None,
        read_only: false,
        message_type: MessageType::Error {
            code: request_error_code(kind),
            text: request_error_text(kind),
        },
    }
}

} // verus!
