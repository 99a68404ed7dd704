use muxproxy::dispatch::{forward_request, prepare_request, restore_response, MessagePacket, Reply};
use muxproxy::rewrite::hash_id;
use muxproxy::wire::WireMessage;
use muxproxy::worker::{PendingTable, RouteOutcome};
use muxproxy::ProxyError;

fn expect_response(reply: Reply) -> WireMessage {
    match reply {
        Reply::Response(m) => m,
        Reply::Failed(e) => panic!("expected a response, got failure {:?}", e),
    }
}

#[test]
fn single_round_trip() {
    // Client sends a request with identifier 7; the proxy forwards it with
    // a rewritten identifier k; the backend replies with response-to k; the
    // client receives a response with response-to 7.
    let (dispatch_tx, dispatch_rx) = flume::unbounded::<MessagePacket>();
    let (reply_tx, reply_rx) = flume::unbounded::<Reply>();

    let request = WireMessage::encode(7, 0, &vec![0xAA]);
    let (k, ok) = forward_request(request, "client", &dispatch_tx, reply_tx);
    assert!(ok);
    assert_eq!(k, hash_id(7, "client"));

    let mut table = PendingTable::new();
    let packet = dispatch_rx.recv().unwrap();
    assert_eq!(packet.request_id, k);
    let outbound = table.register(packet);
    assert_eq!(outbound.request_id(), k);
    assert!(table.contains(k));
    assert_eq!(table.len(), 1);

    let response = WireMessage::encode(99, k, &vec![0xBB]);
    assert_eq!(table.route_response(response), RouteOutcome::Delivered);
    assert_eq!(table.len(), 0);
    assert!(!table.contains(k));

    let mut m = expect_response(reply_rx.recv().unwrap());
    let orig = restore_response(&mut m, "client");
    assert_eq!(orig, 7);
    assert_eq!(m.response_to(), 7);
    assert_eq!(m.request_id(), 99);
    assert_eq!(&m.into_bytes()[12..], &[0xBB]);
}

#[test]
fn two_clients_shared_backend() {
    // Client A (identity "a") and client B (identity "b") each send a
    // request with identifier 1 to the same backend worker; the worker must
    // route A's response only to A and B's only to B.
    let (dispatch_tx, dispatch_rx) = flume::unbounded::<MessagePacket>();
    let (reply_tx_a, reply_rx_a) = flume::unbounded::<Reply>();
    let (reply_tx_b, reply_rx_b) = flume::unbounded::<Reply>();

    let (ka, _) = forward_request(WireMessage::encode(1, 0, &vec![0x0A]), "a", &dispatch_tx, reply_tx_a);
    let (kb, _) = forward_request(WireMessage::encode(1, 0, &vec![0x0B]), "b", &dispatch_tx, reply_tx_b);
    assert_ne!(ka, kb, "the test identities must rewrite collision-free");

    let mut table = PendingTable::new();
    table.register(dispatch_rx.recv().unwrap());
    table.register(dispatch_rx.recv().unwrap());
    assert_eq!(table.len(), 2);

    // The backend answers B first, then A.
    assert_eq!(table.route_response(WireMessage::encode(52, kb, &vec![0xB0])), RouteOutcome::Delivered);
    assert_eq!(table.route_response(WireMessage::encode(51, ka, &vec![0xA0])), RouteOutcome::Delivered);

    let mut ma = expect_response(reply_rx_a.recv().unwrap());
    assert_eq!(restore_response(&mut ma, "a"), 1);
    assert_eq!(&ma.into_bytes()[12..], &[0xA0]);
    assert!(reply_rx_a.try_recv().is_err(), "A must receive only its own response");

    let mut mb = expect_response(reply_rx_b.recv().unwrap());
    assert_eq!(restore_response(&mut mb, "b"), 1);
    assert_eq!(&mb.into_bytes()[12..], &[0xB0]);
    assert!(reply_rx_b.try_recv().is_err(), "B must receive only its own response");
}

#[test]
fn out_of_order_backend_response() {
    // The client sends requests 1 then 2; the backend replies to 2 before
    // 1; the client receives the reply to 2 first, each carrying the
    // correct restored identifier.
    let (dispatch_tx, dispatch_rx) = flume::unbounded::<MessagePacket>();
    let (reply_tx, reply_rx) = flume::unbounded::<Reply>();

    let (k1, _) =
        forward_request(WireMessage::encode(1, 0, &vec![1]), "c", &dispatch_tx, reply_tx.clone());
    let (k2, _) =
        forward_request(WireMessage::encode(2, 0, &vec![2]), "c", &dispatch_tx, reply_tx);

    let mut table = PendingTable::new();
    table.register(dispatch_rx.recv().unwrap());
    table.register(dispatch_rx.recv().unwrap());

    assert_eq!(table.route_response(WireMessage::encode(62, k2, &vec![0x22])), RouteOutcome::Delivered);
    assert_eq!(table.route_response(WireMessage::encode(61, k1, &vec![0x11])), RouteOutcome::Delivered);

    let mut first = expect_response(reply_rx.recv().unwrap());
    assert_eq!(restore_response(&mut first, "c"), 2);
    assert_eq!(&first.into_bytes()[12..], &[0x22]);

    let mut second = expect_response(reply_rx.recv().unwrap());
    assert_eq!(restore_response(&mut second, "c"), 1);
    assert_eq!(&second.into_bytes()[12..], &[0x11]);
}

#[test]
fn pending_table_exactness() {
    // After a request is forwarded the table holds exactly the in-flight
    // entries; after a response is matched, the entry is removed.
    let (reply_tx, _reply_rx) = flume::unbounded::<Reply>();
    let mut table = PendingTable::new();
    assert_eq!(table.len(), 0);

    let m1 = WireMessage::encode(10, 0, &vec![]);
    let m2 = WireMessage::encode(20, 0, &vec![]);
    table.register(MessagePacket::new(m1, 10, reply_tx.clone()));
    table.register(MessagePacket::new(m2, 20, reply_tx.clone()));
    assert_eq!(table.len(), 2);
    assert!(table.contains(10));
    assert!(table.contains(20));
    assert!(!table.contains(30));

    // A response no one is waiting for is dropped and changes nothing.
    assert_eq!(table.route_response(WireMessage::encode(0, 30, &vec![])), RouteOutcome::Unmatched);
    assert_eq!(table.len(), 2);

    assert_eq!(table.route_response(WireMessage::encode(0, 10, &vec![])), RouteOutcome::Delivered);
    assert_eq!(table.len(), 1);
    assert!(!table.contains(10));
    assert!(table.contains(20));
}

#[test]
fn register_same_key_replaces() {
    // Forwarding a second request under an identifier that is already
    // pending keeps at most one live entry per key.
    let (reply_tx, _reply_rx) = flume::unbounded::<Reply>();
    let mut table = PendingTable::new();
    table.register(MessagePacket::new(WireMessage::encode(5, 0, &vec![]), 5, reply_tx.clone()));
    table.register(MessagePacket::new(WireMessage::encode(5, 0, &vec![]), 5, reply_tx.clone()));
    assert_eq!(table.len(), 1);
    assert!(table.contains(5));
}

#[test]
fn route_to_vanished_client_is_harmless() {
    // A reply channel whose client handler is gone is a no-op, not an
    // error; the entry still leaves the table.
    let (reply_tx, reply_rx) = flume::unbounded::<Reply>();
    drop(reply_rx);
    let mut table = PendingTable::new();
    table.register(MessagePacket::new(WireMessage::encode(5, 0, &vec![]), 5, reply_tx));
    assert_eq!(table.route_response(WireMessage::encode(0, 5, &vec![])), RouteOutcome::ReceiverGone);
    assert_eq!(table.len(), 0);
}

#[test]
fn failure_propagation() {
    // If the backend connection is severed while N requests are pending,
    // every one of the N reply channels receives BackendUnavailable exactly
    // once, and none is left waiting.
    let mut table = PendingTable::new();
    let mut receivers = Vec::new();
    for i in 0..3u32 {
        let (reply_tx, reply_rx) = flume::unbounded::<Reply>();
        table.register(MessagePacket::new(WireMessage::encode(i, 0, &vec![]), i, reply_tx));
        receivers.push(reply_rx);
    }
    let mut failed = table.fail_all();
    failed.sort();
    assert_eq!(failed, vec![0, 1, 2]);
    assert_eq!(table.len(), 0);
    for rx in receivers {
        match rx.recv().unwrap() {
            Reply::Failed(e) => assert_eq!(e, ProxyError::BackendUnavailable),
            Reply::Response(_) => panic!("expected a failure signal"),
        }
        // The sender went down with the table entry: exactly one signal.
        assert!(rx.recv().is_err());
    }
}

#[test]
fn prepare_request_rewrites_in_place() {
    let mut m = WireMessage::encode(7, 3, &vec![9, 9]);
    let rid = prepare_request(&mut m, "client");
    assert_eq!(rid, hash_id(7, "client"));
    assert_eq!(m.request_id(), rid);
    assert_eq!(m.response_to(), 3);
    assert_eq!(&m.into_bytes()[12..], &[9, 9]);
}
