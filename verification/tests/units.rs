//! Unit tests of the library's parts: the XOR metric, the token
//! discipline, the routing table, the peer store, the transaction map,
//! and the client-side builders and parsers.

use mainline_dht::addrs::PeerAddr;
use mainline_dht::dht::{error_reply, Dht};
use mainline_dht::errors::{request_error_code, ErrorKind};
use mainline_dht::id::{id_less, NodeId};
use mainline_dht::msg::{Message, MessageType, PortType, Query, Response};
use mainline_dht::node::{Node, NodeState};
use mainline_dht::peer::{
    announce_peer_query, build_request, dispatch_inbound, find_node_from_response,
    get_peers_from_response, node_id_from_response, DispatchOutcome,
};
use mainline_dht::routing::{FindNodeResult, RoutingTable};
use mainline_dht::txmap::{PollOutcome, TransactionMap};

fn id_with_last(last: u8) -> NodeId {
    let mut bytes = vec![0u8; 20];
    bytes[19] = last;
    NodeId::from_bytes(&bytes).unwrap()
}

#[test]
fn distance_is_xor_and_ordered() {
    let a = NodeId::repeated(0x0F);
    let b = NodeId::repeated(0xF0);
    let d = a.distance(&b);
    assert_eq!(d.to_bytes(), vec![0xFF; 20]);
    assert_eq!(a.distance(&a).to_bytes(), vec![0u8; 20]);
    assert!(id_less(&a, &b));
    assert!(!id_less(&b, &a));
    assert!(!id_less(&a, &a));
}

#[test]
fn leading_zero_bits_counts_prefix() {
    assert_eq!(NodeId::repeated(0).leading_zero_bits(), 160);
    assert_eq!(NodeId::repeated(0xFF).leading_zero_bits(), 0);
    assert_eq!(id_with_last(0x01).leading_zero_bits(), 159);
    assert_eq!(id_with_last(0x80).leading_zero_bits(), 152);
}

#[test]
fn token_verifies_until_second_rotation() {
    let mut table = RoutingTable::new(NodeId::repeated(0xBB));
    let addr = PeerAddr::new(127, 0, 0, 1, 7000);
    let token = table.generate_token(addr);
    assert_eq!(token.len(), 20);
    assert!(table.verify_token(&token, addr));
    // bound to the address: another caller cannot replay it
    assert!(!table.verify_token(&token, PeerAddr::new(127, 0, 0, 2, 7000)));
    table.rotate_token_secret();
    assert!(table.verify_token(&token, addr));
    table.rotate_token_secret();
    assert!(!table.verify_token(&token, addr));
}

#[test]
fn find_nodes_caps_at_k_and_sorts() {
    let mut table = RoutingTable::new(NodeId::repeated(0xBB));
    for i in 1..=12u8 {
        let _ = table.get_or_add(&id_with_last(i), PeerAddr::new(10, 0, 0, i, 1000));
    }
    let target = id_with_last(0);
    let nodes = table.find_nodes(&target);
    assert!(nodes.len() <= 8);
    assert_eq!(nodes.len(), 8.min(table.len()));
    for w in nodes.windows(2) {
        let d0 = w[0].id().distance(&target);
        let d1 = w[1].id().distance(&target);
        assert!(!id_less(&d1, &d0), "results must be ascending by distance");
    }
}

#[test]
fn total_across_buckets_equals_len() {
    let mut table = RoutingTable::new(NodeId::repeated(0x00));
    assert_eq!(table.len(), 0);
    for i in 1..=30u8 {
        let _ = table.get_or_add(&id_with_last(i), PeerAddr::new(10, 0, 0, i, 1000));
    }
    // inserting the same ids again must not change the count
    let before = table.len();
    for i in 1..=30u8 {
        let _ = table.get_or_add(&id_with_last(i), PeerAddr::new(10, 0, 0, i, 1000));
    }
    assert_eq!(table.len(), before);
    assert!(before > 8, "the bucket holding the local id must have split");
}

#[test]
fn response_delivered_exactly_once() {
    let mut tx: TransactionMap<u32> = TransactionMap::new();
    tx.register(5).unwrap();
    assert!(matches!(tx.register(5), Err(ErrorKind::DuplicateTransaction)));
    assert!(matches!(tx.poll(5, 11), PollOutcome::Pending));
    let waker = tx.deliver(5, 99);
    assert_eq!(waker, Some(11));
    match tx.poll(5, 12) {
        PollOutcome::Ready(envelope) => assert_eq!(envelope, 99),
        _ => panic!("a delivered response must be ready"),
    }
    assert!(matches!(tx.poll(5, 13), PollOutcome::Missing));
    assert!(matches!(tx.poll(5, 14), PollOutcome::Missing));
}

#[test]
fn unsolicited_delivery_is_dropped() {
    let mut tx: TransactionMap<u32> = TransactionMap::new();
    assert!(tx.deliver(1, 7).is_none());
    assert!(!tx.is_registered(1));
}

#[test]
fn announce_with_named_port_overrides_source_port() {
    let mut b = Dht::new(NodeId::repeated(0xBB));
    let ih = NodeId::repeated(0x42);
    let from = PeerAddr::new(127, 0, 0, 1, 7000);
    let token = b.table.generate_token(from);
    let r = b.handle_announce_peer(
        from,
        NodeId::repeated(0xAA),
        false,
        Some(9999),
        ih,
        token,
        false,
    );
    assert!(r.is_ok());
    let peers = b.store.peers_for(&ih);
    assert_eq!(peers, vec![PeerAddr::new(127, 0, 0, 1, 9999)]);
}

#[test]
fn announce_without_any_port_is_insufficient() {
    let mut b = Dht::new(NodeId::repeated(0xBB));
    let ih = NodeId::repeated(0x42);
    let from = PeerAddr::new(127, 0, 0, 1, 7000);
    let token = b.table.generate_token(from);
    let r = b.handle_announce_peer(from, NodeId::repeated(0xAA), false, None, ih, token, false);
    assert!(matches!(r, Err(ErrorKind::InsufficientAddress)));
    assert!(b.store.peers_for(&ih).is_empty());
    assert_eq!(request_error_code(ErrorKind::InsufficientAddress), 201);
}

#[test]
fn error_codes_follow_bep5() {
    assert_eq!(request_error_code(ErrorKind::InvalidToken), 201);
    assert_eq!(request_error_code(ErrorKind::MalformedMessage), 203);
    assert_eq!(request_error_code(ErrorKind::MissingRequiredField), 203);
    assert_eq!(request_error_code(ErrorKind::UnknownQueryType), 204);
    assert_eq!(request_error_code(ErrorKind::UnimplementedRequestType), 204);
}

#[test]
fn builders_and_parsers_round_their_shapes() {
    let me = NodeId::repeated(0x01);
    let ih = NodeId::repeated(0x02);
    let req = build_request(Query::Ping { id: me });
    assert!(req.version.is_none());
    assert!(!req.read_only);

    let req = announce_peer_query(me, vec![1, 2, 3], ih, PortType::Port(8080));
    match req.query {
        Query::AnnouncePeer { implied_port, port, token, .. } => {
            assert!(!implied_port);
            assert_eq!(port, Some(8080));
            assert_eq!(token, vec![1, 2, 3]);
        },
        _ => panic!("announce builder must build an announce"),
    }

    let id = node_id_from_response(Response::OnlyId { id: me }).unwrap();
    assert!(id.equals(&me));
    assert!(node_id_from_response(Response::NextHop {
        id: me,
        token: None,
        nodes: Vec::new(),
    })
    .is_err());

    let fr = find_node_from_response(Response::NextHop {
        id: me,
        token: None,
        nodes: vec![Node::new(ih, PeerAddr::new(1, 2, 3, 4, 5))],
    })
    .unwrap();
    assert_eq!(fr.nodes.len(), 1);

    let gp = get_peers_from_response(Response::GetPeers {
        id: me,
        token: Some(vec![9]),
        peers: vec![PeerAddr::new(1, 2, 3, 4, 5)],
    })
    .unwrap();
    assert_eq!(gp.peers.len(), 1);
    assert!(gp.nodes.is_empty());
    assert!(get_peers_from_response(Response::OnlyId { id: me }).is_err());
}

#[test]
fn dispatch_tells_responses_from_queries() {
    let mut tx: TransactionMap<Message> = TransactionMap::new();
    tx.register(3).unwrap();

    let response = Message {
        transaction_id: 3,
        version: None,
        ip: None,
        read_only: false,
        message_type: MessageType::Response(Response::OnlyId { id: NodeId::repeated(9) }),
    };
    assert!(matches!(
        dispatch_inbound(response, &mut tx),
        DispatchOutcome::Delivered(None)
    ));
    assert!(matches!(tx.poll(3, 1), PollOutcome::Ready(_)));

    let query = Message {
        transaction_id: 8,
        version: None,
        ip: None,
        read_only: true,
        message_type: MessageType::Query(Query::Ping { id: NodeId::repeated(9) }),
    };
    match dispatch_inbound(query, &mut tx) {
        DispatchOutcome::Inbound(req) => {
            assert_eq!(req.transaction_id, 8);
            assert!(req.read_only);
        },
        _ => panic!("a query must be handed to the handler"),
    }

    let stray = Message {
        transaction_id: 1000 % 256,
        version: None,
        ip: None,
        read_only: false,
        message_type: MessageType::Error { code: 201, text: "Generic Error".to_string() },
    };
    assert!(matches!(dispatch_inbound(stray, &mut tx), DispatchOutcome::Dropped));
}

#[test]
fn bad_node_is_evicted_from_full_bucket() {
    // fill one non-splittable bucket: ids with the same prefix length
    let local = NodeId::repeated(0x00);
    let mut table = RoutingTable::new(local);
    // all these ids start with 0x80: prefix length 0 to the local id
    let mut made = Vec::new();
    for i in 0..9u8 {
        let mut bytes = vec![0u8; 20];
        bytes[0] = 0x80;
        bytes[19] = i;
        made.push(NodeId::from_bytes(&bytes).unwrap());
    }
    for id in made.iter().take(8) {
        table.get_or_add(id, PeerAddr::new(10, 0, 0, 1, 1000)).unwrap();
    }
    // the ninth cannot enter: the bucket is full, not splittable, no bad node
    assert!(matches!(
        table.get_or_add(&made[8], PeerAddr::new(10, 0, 0, 9, 1000)),
        Err(ErrorKind::BucketFull)
    ));
    // one bad node makes room
    let mut bad = Node::new(made[0], PeerAddr::new(10, 0, 0, 1, 1000));
    bad.mark_failed_request();
    bad.mark_failed_request();
    assert_eq!(bad.state, NodeState::Bad);
    // rebuild the table with the bad node first
    let mut table = RoutingTable::new(local);
    table.add_node(bad);
    for id in made.iter().skip(1).take(7) {
        table.get_or_add(id, PeerAddr::new(10, 0, 0, 2, 1000)).unwrap();
    }
    assert_eq!(table.len(), 8);
    table.get_or_add(&made[8], PeerAddr::new(10, 0, 0, 9, 1000)).unwrap();
    assert_eq!(table.len(), 8);
    assert!(matches!(table.find_node(&made[8]), FindNodeResult::Node(_)));
    assert!(matches!(table.find_node(&made[0]), FindNodeResult::Nodes(_)));
}

#[test]
fn peer_store_keeps_hashes_apart() {
    let mut b = Dht::new(NodeId::repeated(0xBB));
    let ih1 = NodeId::repeated(0x01);
    let ih2 = NodeId::repeated(0x02);
    let from1 = PeerAddr::new(127, 0, 0, 1, 7000);
    let from2 = PeerAddr::new(127, 0, 0, 2, 7001);
    let t1 = b.table.generate_token(from1);
    let t2 = b.table.generate_token(from2);
    b.handle_announce_peer(from1, NodeId::repeated(0xA1), true, None, ih1, t1, false).unwrap();
    b.handle_announce_peer(from2, NodeId::repeated(0xA2), true, None, ih2, t2, false).unwrap();
    assert_eq!(b.store.peers_for(&ih1), vec![from1]);
    assert_eq!(b.store.peers_for(&ih2), vec![from2]);
    // the same peer announcing again is listed once per announce
    let t1b = b.table.generate_token(from1);
    b.handle_announce_peer(from1, NodeId::repeated(0xA1), true, None, ih1, t1b, false).unwrap();
    assert_eq!(b.store.peers_for(&ih1), vec![from1, from1]);
}

#[test]
fn facade_get_peers_is_a_stub() {
    let mut b = Dht::new(NodeId::repeated(0xBB));
    let ih = NodeId::repeated(0x42);
    let from = PeerAddr::new(127, 0, 0, 1, 7000);
    let token = b.table.generate_token(from);
    b.handle_announce_peer(from, NodeId::repeated(0xAA), true, None, ih, token, false).unwrap();
    // the store holds the announce, but the facade lookup is a stub:
    // the iterative network lookup is not part of the core
    assert_eq!(b.store.peers_for(&ih), vec![from]);
    assert!(b.get_peers(&ih).is_empty());
}

#[test]
fn unknown_query_type_gets_error_204() {
    let reply = error_reply(31, ErrorKind::UnknownQueryType);
    assert_eq!(reply.transaction_id, 31);
    assert!(!reply.read_only);
    match reply.message_type {
        MessageType::Error { code, text } => {
            assert_eq!(code, 204);
            assert_eq!(text, "Method Unknown");
        },
        _ => panic!("an unknown query type must be answered with an error"),
    }
}
