//! End-to-end scenarios at the query-handler level: two nodes exchanging
//! the four queries, with real hashing and random ids linked in.

use mainline_dht::addrs::PeerAddr;
use mainline_dht::dht::Dht;
use mainline_dht::id::NodeId;
use mainline_dht::msg::{MessageType, Query, Request, Response};
use mainline_dht::routing::FindNodeResult;
use mainline_dht::msg::Message;
use mainline_dht::txmap::{PollOutcome, TransactionMap};

fn id_of(bytes: [u8; 20]) -> NodeId {
    NodeId::from_bytes(&bytes.to_vec()).unwrap()
}

fn id_with_last(last: u8) -> NodeId {
    let mut bytes = [0u8; 20];
    bytes[19] = last;
    id_of(bytes)
}

fn request(query: Query) -> Request {
    Request { transaction_id: 7, version: None, read_only: false, query }
}

/// A ping is answered with the receiver's id, and the caller becomes a
/// known contact of the receiver.
#[test]
fn ping_round_trip() {
    let a_id = NodeId::repeated(0xAA);
    let b_id = NodeId::repeated(0xBB);
    let a_addr = PeerAddr::new(127, 0, 0, 1, 6881);
    let mut b = Dht::new(b_id);

    let reply = b.handle_request(request(Query::Ping { id: a_id }), a_addr);
    assert_eq!(reply.transaction_id, 7);
    match reply.message_type {
        MessageType::Response(Response::OnlyId { id }) => {
            assert!(id.equals(&NodeId::repeated(0xBB)));
        },
        _ => panic!("ping must be answered with the bare id"),
    }
    assert!(matches!(b.table.find_node(&a_id), FindNodeResult::Node(_)));
    assert_eq!(b.table.len(), 1);
}

/// With no exact match, find_node falls back to the known nodes sorted by
/// ascending XOR distance to the target.
#[test]
fn find_node_fall_back() {
    let b_id = NodeId::repeated(0xBB);
    let mut b = Dht::new(b_id);
    let n1 = id_with_last(0x01);
    let n2 = id_with_last(0x02);
    let mut far = [0xFFu8; 20];
    far[19] = 0xFE;
    let n3 = id_of(far);
    b.record_bootstrap_pong(n1, PeerAddr::new(10, 0, 0, 1, 1000));
    b.record_bootstrap_pong(n2, PeerAddr::new(10, 0, 0, 2, 1000));
    b.record_bootstrap_pong(n3, PeerAddr::new(10, 0, 0, 3, 1000));

    let a_id = NodeId::repeated(0xAA);
    let target = id_with_last(0x03);
    let reply = b.handle_request(
        request(Query::FindNode { id: a_id, target }),
        PeerAddr::new(127, 0, 0, 1, 6881),
    );
    match reply.message_type {
        MessageType::Response(Response::NextHop { token, nodes, .. }) => {
            assert!(token.is_none());
            let ids: Vec<Vec<u8>> = nodes.iter().map(|n| n.id().to_bytes()).collect();
            // distance to ..03: ..02 is at 01, ..01 is at 02, FF..FE far away
            assert!(ids.contains(&n2.to_bytes()));
            let pos =
                |needle: &Vec<u8>| ids.iter().position(|x| x == needle).expect("node missing");
            assert!(pos(&n2.to_bytes()) < pos(&n1.to_bytes()));
            assert!(pos(&n1.to_bytes()) < pos(&n3.to_bytes()));
        },
        _ => panic!("find_node must be answered with next-hop nodes"),
    }
}

/// An announce with a forged (zeroed) token is refused with error 201 and
/// a text naming the invalid token; the peer store stays empty.
#[test]
fn announce_peer_without_get_peers() {
    let mut b = Dht::new(NodeId::repeated(0xBB));
    let a_id = NodeId::repeated(0xAA);
    let ih = NodeId::repeated(0x77);
    let from = PeerAddr::new(127, 0, 0, 1, 7000);
    let reply = b.handle_request(
        request(Query::AnnouncePeer {
            id: a_id,
            implied_port: true,
            port: None,
            info_hash: ih,
            token: vec![0u8; 20],
        }),
        from,
    );
    match reply.message_type {
        MessageType::Error { code, text } => {
            assert_eq!(code, 201);
            assert_eq!(text, "Invalid Token");
        },
        _ => panic!("a zeroed token must be refused"),
    }
    assert!(b.store.peers_for(&ih).is_empty());
}

/// A get_peers hands out a token; announcing with that token stores the
/// caller's address, and a later get_peers from a third node returns it.
#[test]
fn announce_peer_after_get_peers() {
    let mut b = Dht::new(NodeId::repeated(0xBB));
    let a_id = NodeId::repeated(0xAA);
    let ih = NodeId::repeated(0x77);
    let a_addr = PeerAddr::new(127, 0, 0, 1, 7000);

    let reply = b.handle_request(request(Query::GetPeers { id: a_id, info_hash: ih }), a_addr);
    let token = match reply.message_type {
        MessageType::Response(Response::NextHop { token, .. }) => token.expect("token owed"),
        _ => panic!("an empty store must answer get_peers with next hops"),
    };

    let reply = b.handle_request(
        request(Query::AnnouncePeer {
            id: a_id,
            implied_port: true,
            port: None,
            info_hash: ih,
            token,
        }),
        a_addr,
    );
    match reply.message_type {
        MessageType::Response(Response::OnlyId { .. }) => {},
        _ => panic!("a valid announce must be answered with the bare id"),
    }
    let peers = b.store.peers_for(&ih);
    assert_eq!(peers.len(), 1);
    assert_eq!(peers[0], a_addr);

    let c_id = NodeId::repeated(0xCC);
    let c_addr = PeerAddr::new(127, 0, 0, 2, 7100);
    let reply = b.handle_request(request(Query::GetPeers { id: c_id, info_hash: ih }), c_addr);
    match reply.message_type {
        MessageType::Response(Response::GetPeers { peers, .. }) => {
            assert_eq!(peers, vec![a_addr]);
        },
        _ => panic!("a filled store must answer get_peers with the peers"),
    }
}

/// A read-only ping is answered normally but the caller is not added to
/// the routing table.
#[test]
fn read_only_request_does_not_pollute_routing() {
    let mut b = Dht::new(NodeId::repeated(0xBB));
    let a_id = NodeId::repeated(0xAA);
    let msg = Request { transaction_id: 9, version: None, read_only: true, query: Query::Ping {
        id: a_id,
    } };
    let reply = b.handle_request(msg, PeerAddr::new(127, 0, 0, 1, 6881));
    match reply.message_type {
        MessageType::Response(Response::OnlyId { id }) => {
            assert!(id.equals(&NodeId::repeated(0xBB)));
        },
        _ => panic!("a read-only ping is still answered"),
    }
    assert_eq!(b.table.len(), 0);
    assert!(matches!(b.table.find_node(&a_id), FindNodeResult::Nodes(_)));
}

/// After a timeout the caller cancels its transaction: the entry is gone
/// and later polls and deliveries find nothing.
#[test]
fn timeout_cancels_transaction() {
    let mut tx: TransactionMap<Message> = TransactionMap::new();
    tx.register(42).unwrap();
    assert!(tx.is_registered(42));
    tx.cancel(42);
    assert!(!tx.is_registered(42));
    assert_eq!(tx.len(), 0);
    match tx.poll(42, 1) {
        PollOutcome::Missing => {},
        _ => panic!("a cancelled transaction must be missing"),
    }
    let late = Message {
        transaction_id: 42,
        version: None,
        ip: None,
        read_only: false,
        message_type: MessageType::Response(Response::OnlyId { id: NodeId::repeated(1) }),
    };
    let waker = tx.deliver(42, late);
    assert!(waker.is_none());
    assert!(!tx.is_registered(42));
}
