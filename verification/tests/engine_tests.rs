use pyrite_network::addr::Addr;
use pyrite_network::codec::{decode, encode};
use pyrite_network::connection::{NetworkConnection, RecvEvent, RecvMessageError};
use pyrite_network::message::NetworkMessage;
use pyrite_network::peer_table::PeerTable;

fn v4(d: u8, port: u16) -> Addr {
    Addr::v4(10, 0, 0, d, port)
}

fn datagram(src: Addr, msg: &NetworkMessage) -> RecvEvent {
    RecvEvent::Datagram { src, payload: encode(msg) }
}

fn dests(sends: &[pyrite_network::connection::Outgoing]) -> Vec<Addr> {
    sends.iter().map(|o| o.dest).collect()
}

#[test]
fn table_uniqueness_under_touches() {
    let mut t = PeerTable::new();
    let a = v4(1, 1000);
    let b = v4(2, 1000);
    t.touch(a, 1);
    t.touch(b, 2);
    t.touch(a, 3);
    t.touch(a, 4);
    assert_eq!(t.len(), 2);
    assert_eq!(t.last_seen(a), Some(4));
    assert_eq!(t.last_seen(b), Some(2));
}

#[test]
fn table_remove_then_absent() {
    let mut t = PeerTable::new();
    let a = v4(1, 1000);
    t.touch(a, 1);
    assert!(t.contains(a));
    t.remove(a);
    assert!(!t.contains(a));
    assert_eq!(t.len(), 0);
    t.remove(a); // removing an unknown address is a no-op
    assert_eq!(t.len(), 0);
}

#[test]
fn last_seen_monotonic_across_datagrams() {
    let mut c = NetworkConnection::new(0);
    let a = v4(1, 1000);
    let r1 = c.process(datagram(a, &NetworkMessage::KeepAlive), 5);
    assert!(r1.result.is_ok());
    let first = c.peer_last_seen(a).unwrap();
    let r2 = c.process(datagram(a, &NetworkMessage::KeepAlive), 8);
    assert!(r2.result.is_ok());
    let second = c.peer_last_seen(a).unwrap();
    assert_eq!(first, 5);
    assert_eq!(second, 8);
    assert!(second >= first);
}

#[test]
fn jumpstart_sends_one_request_to_each_bootstrap() {
    let p1 = v4(1, 4100);
    let p2 = v4(2, 4100);
    let mut c = NetworkConnection::new(0);
    let out = c.jumpstart_discovery(&vec![p1, p2], 7);
    assert_eq!(out.len(), 2);
    let ds = dests(&out);
    assert!(ds.contains(&p1));
    assert!(ds.contains(&p2));
    for o in &out {
        assert_eq!(decode(&o.payload), Ok(NetworkMessage::RequestPeerList));
    }
    assert!(c.contains_peer(p1));
    assert!(c.contains_peer(p2));
    assert_eq!(c.peer_last_seen(p1), Some(7));
    assert_eq!(c.peer_last_seen(p2), Some(7));
}

#[test]
fn new_peer_announced_to_prior_peers_only() {
    let b = v4(1, 4100);
    let x = v4(9, 5000);
    let mut c = NetworkConnection::new(0);
    c.jumpstart_discovery(&vec![b], 0);
    let r = c.process(datagram(x, &NetworkMessage::KeepAlive), 3);
    assert_eq!(r.result, Ok(Some(NetworkMessage::KeepAlive)));
    assert!(c.contains_peer(x));
    assert_eq!(c.peer_last_seen(x), Some(3));
    // exactly one announcement, to the one prior peer, never to x itself
    assert_eq!(r.sends.len(), 1);
    assert_eq!(r.sends[0].dest, b);
    assert_eq!(
        decode(&r.sends[0].payload),
        Ok(NetworkMessage::NewNode { addr: x })
    );
}

#[test]
fn known_sender_is_only_refreshed() {
    let b = v4(1, 4100);
    let mut c = NetworkConnection::new(0);
    c.jumpstart_discovery(&vec![b], 0);
    let r = c.process(datagram(b, &NetworkMessage::KeepAlive), 3);
    assert_eq!(r.result, Ok(Some(NetworkMessage::KeepAlive)));
    assert!(r.sends.is_empty());
    assert_eq!(c.peer_count(), 1);
    assert_eq!(c.peer_last_seen(b), Some(3));
}

#[test]
fn peer_list_reply_holds_old_set_plus_requester() {
    let a = v4(1, 1);
    let b = v4(2, 2);
    let c_addr = v4(3, 3);
    let d = v4(4, 4);
    let mut node = NetworkConnection::new(0);
    node.jumpstart_discovery(&vec![a, b, c_addr], 0);
    let r = node.process(datagram(d, &NetworkMessage::RequestPeerList), 1);
    assert_eq!(r.result, Ok(Some(NetworkMessage::RequestPeerList)));
    // announcement of d to {a, b, c}, then the reply to d
    assert_eq!(r.sends.len(), 4);
    let reply = r.sends.last().unwrap();
    assert_eq!(reply.dest, d);
    match decode(&reply.payload) {
        Ok(NetworkMessage::PeerList { peers }) => {
            let mut got = peers;
            let mut want = vec![a, b, c_addr, d];
            got.sort_by_key(|p| (p.is_v6, p.ip, p.port));
            want.sort_by_key(|p| (p.is_v6, p.ip, p.port));
            assert_eq!(got, want);
        }
        other => panic!("reply was not a peer list: {other:?}"),
    }
}

#[test]
fn new_node_message_inserts_announced_address() {
    let b = v4(1, 4100);
    let y = v4(7, 7000);
    let mut c = NetworkConnection::new(0);
    let r = c.process(datagram(b, &NetworkMessage::NewNode { addr: y }), 2);
    assert_eq!(r.result, Ok(Some(NetworkMessage::NewNode { addr: y })));
    assert!(c.contains_peer(b));
    assert!(c.contains_peer(y));
    assert_eq!(c.peer_last_seen(y), Some(2));
}

#[test]
fn peer_list_message_is_surfaced_not_merged() {
    let b = v4(1, 4100);
    let z = v4(8, 8000);
    let mut c = NetworkConnection::new(0);
    c.jumpstart_discovery(&vec![b], 0);
    let msg = NetworkMessage::PeerList { peers: vec![z] };
    let r = c.process(datagram(b, &msg), 3);
    assert_eq!(r.result, Ok(Some(msg)));
    // the announced peers are surfaced to the caller, not merged
    assert!(!c.contains_peer(z));
    assert_eq!(c.peer_count(), 1);
}

#[test]
fn eviction_on_send_failure() {
    let a = v4(1, 1);
    let p = v4(2, 2);
    let mut c = NetworkConnection::new(0);
    c.jumpstart_discovery(&vec![a, p], 0);
    c.handle_send_failure(p);
    assert!(!c.contains_peer(p));
    assert!(c.contains_peer(a));
    let out = c.broadcast(&NetworkMessage::KeepAlive);
    assert!(!dests(&out).contains(&p));
    assert_eq!(out.len(), 1);
}

#[test]
fn timeout_sends_exactly_one_keep_alive_broadcast() {
    let a = v4(1, 1);
    let b = v4(2, 2);
    let mut c = NetworkConnection::new(0);
    c.jumpstart_discovery(&vec![a, b], 0);
    let r = c.process(RecvEvent::TimedOut, 31);
    assert_eq!(r.result, Ok(None));
    assert_eq!(r.sends.len(), 2);
    for o in &r.sends {
        assert_eq!(decode(&o.payload), Ok(NetworkMessage::KeepAlive));
    }
    let ds = dests(&r.sends);
    assert!(ds.contains(&a) && ds.contains(&b));
    // the heartbeat mark was reset: nothing is due for another window
    assert!(!c.heartbeat_due(61));
    assert!(c.heartbeat_due(62));
}

#[test]
fn datagram_within_window_triggers_no_heartbeat() {
    let a = v4(1, 1);
    let mut c = NetworkConnection::new(0);
    c.jumpstart_discovery(&vec![a], 0);
    let r = c.process(datagram(a, &NetworkMessage::KeepAlive), 30);
    assert_eq!(r.result, Ok(Some(NetworkMessage::KeepAlive)));
    assert!(r.sends.is_empty());
}

#[test]
fn overdue_heartbeat_fires_even_while_datagrams_arrive() {
    let a = v4(1, 1);
    let mut c = NetworkConnection::new(0);
    c.jumpstart_discovery(&vec![a], 0);
    let r = c.process(datagram(a, &NetworkMessage::KeepAlive), 40);
    assert_eq!(r.result, Ok(Some(NetworkMessage::KeepAlive)));
    // proactive keep-alive to the one known peer, and the mark was reset
    assert_eq!(r.sends.len(), 1);
    assert_eq!(r.sends[0].dest, a);
    assert_eq!(decode(&r.sends[0].payload), Ok(NetworkMessage::KeepAlive));
    assert!(!c.heartbeat_due(70));
}

#[test]
fn undecodable_datagram_is_dropped_and_reported() {
    let b = v4(1, 4100);
    let x = v4(9, 5000);
    let mut c = NetworkConnection::new(0);
    c.jumpstart_discovery(&vec![b], 0);
    let r = c.process(RecvEvent::Datagram { src: x, payload: vec![250, 1, 2] }, 3);
    match r.result {
        Err(RecvMessageError::DecodeError(_)) => {}
        other => panic!("expected a decode error, got {other:?}"),
    }
    // the malformed datagram left the table unchanged: no new sender entry
    assert!(!c.contains_peer(x));
    assert_eq!(c.peer_count(), 1);
    assert!(r.sends.is_empty());
}

#[test]
fn failed_receive_is_propagated_recoverably() {
    let b = v4(1, 4100);
    let mut c = NetworkConnection::new(0);
    c.jumpstart_discovery(&vec![b], 0);
    let r = c.process(RecvEvent::Failed, 3);
    assert_eq!(r.result, Err(RecvMessageError::IoError));
    assert_eq!(c.peer_count(), 1);
    assert!(r.sends.is_empty());
}

#[test]
fn two_node_discovery_scenario() {
    let addr_a = v4(1, 4100);
    let addr_b = v4(2, 4200);

    // Node A starts knowing only B and asks B for its peer list.
    let mut node_a = NetworkConnection::new(0);
    let a_out = node_a.jumpstart_discovery(&vec![addr_b], 0);
    assert_eq!(a_out.len(), 1);
    assert_eq!(a_out[0].dest, addr_b);

    // B, with an empty table, receives it: no prior peers, so no NewNode
    // broadcast goes out; B inserts A and replies with PeerList { [A] }.
    let mut node_b = NetworkConnection::new(0);
    let r_b = node_b.process(
        RecvEvent::Datagram { src: addr_a, payload: a_out[0].payload.clone() },
        1,
    );
    assert_eq!(r_b.result, Ok(Some(NetworkMessage::RequestPeerList)));
    assert!(node_b.contains_peer(addr_a));
    assert_eq!(r_b.sends.len(), 1);
    assert_eq!(r_b.sends[0].dest, addr_a);
    assert_eq!(
        decode(&r_b.sends[0].payload),
        Ok(NetworkMessage::PeerList { peers: vec![addr_a] })
    );

    // A receives the reply: B is already known, so A only refreshes B's
    // last-seen and surfaces the peer list to its caller.
    let r_a = node_a.process(
        RecvEvent::Datagram { src: addr_b, payload: r_b.sends[0].payload.clone() },
        2,
    );
    assert_eq!(
        r_a.result,
        Ok(Some(NetworkMessage::PeerList { peers: vec![addr_a] }))
    );
    assert!(r_a.sends.is_empty());
    assert_eq!(node_a.peer_count(), 1);
    assert_eq!(node_a.peer_last_seen(addr_b), Some(2));
}
