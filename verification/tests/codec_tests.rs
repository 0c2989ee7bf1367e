use pyrite_network::addr::Addr;
use pyrite_network::codec::{decode, encode, DecodeError};
use pyrite_network::message::NetworkMessage;

fn v4(a: u8, b: u8, c: u8, d: u8, port: u16) -> Addr {
    Addr::v4(a, b, c, d, port)
}

#[test]
fn keep_alive_exact_bytes() {
    let bytes = encode(&NetworkMessage::KeepAlive);
    assert_eq!(bytes, vec![0u8]);
}

#[test]
fn request_peer_list_exact_bytes() {
    let bytes = encode(&NetworkMessage::RequestPeerList);
    assert_eq!(bytes, vec![2u8]);
}

#[test]
fn new_node_exact_bytes() {
    let addr = v4(1, 2, 3, 4, 80);
    let bytes = encode(&NetworkMessage::NewNode { addr });
    let mut expected = vec![1u8, 0u8, 4u8, 3u8, 2u8, 1u8];
    expected.extend_from_slice(&[0u8; 12]);
    expected.extend_from_slice(&[80u8, 0u8]);
    assert_eq!(bytes, expected);
}

#[test]
fn empty_peer_list_exact_bytes() {
    let bytes = encode(&NetworkMessage::PeerList { peers: Vec::new() });
    assert_eq!(bytes, vec![3u8, 0, 0, 0, 0, 0, 0, 0, 0]);
}

#[test]
fn round_trip_keep_alive() {
    let m = NetworkMessage::KeepAlive;
    assert_eq!(decode(&encode(&m)), Ok(m));
}

#[test]
fn round_trip_request_peer_list() {
    let m = NetworkMessage::RequestPeerList;
    assert_eq!(decode(&encode(&m)), Ok(m));
}

#[test]
fn round_trip_new_node_v4() {
    let m = NetworkMessage::NewNode { addr: v4(192, 168, 0, 17, 4100) };
    assert_eq!(decode(&encode(&m)), Ok(m));
}

#[test]
fn round_trip_new_node_v6() {
    let m = NetworkMessage::NewNode { addr: Addr::v6(0xfe80_0000_0000_0000_0000_0000_0abc_u128, 9) };
    assert_eq!(decode(&encode(&m)), Ok(m));
}

#[test]
fn round_trip_empty_peer_list() {
    let m = NetworkMessage::PeerList { peers: Vec::new() };
    assert_eq!(decode(&encode(&m)), Ok(m));
}

#[test]
fn round_trip_mixed_peer_list() {
    let peers = vec![
        v4(10, 0, 0, 1, 4100),
        Addr::v6(1, 4101),
        v4(10, 0, 0, 2, 4102),
        Addr::v6(u128::MAX, u16::MAX),
    ];
    let m = NetworkMessage::PeerList { peers };
    assert_eq!(decode(&encode(&m)), Ok(m));
}

#[test]
fn decode_empty_input() {
    assert_eq!(decode(&Vec::new()), Err(DecodeError::Empty));
}

#[test]
fn decode_unknown_tag() {
    assert_eq!(decode(&vec![9u8]), Err(DecodeError::UnknownTag));
    assert_eq!(decode(&vec![4u8, 0, 0]), Err(DecodeError::UnknownTag));
}

#[test]
fn decode_trailing_bytes_rejected() {
    assert_eq!(decode(&vec![0u8, 0u8]), Err(DecodeError::Malformed));
    assert_eq!(decode(&vec![2u8, 1u8]), Err(DecodeError::Malformed));
}

#[test]
fn decode_truncated_new_node() {
    assert_eq!(decode(&vec![1u8]), Err(DecodeError::Malformed));
    assert_eq!(decode(&vec![1u8, 0, 1, 2]), Err(DecodeError::Malformed));
}

#[test]
fn decode_bad_family_flag() {
    let mut bytes = encode(&NetworkMessage::NewNode { addr: v4(1, 2, 3, 4, 5) });
    bytes[1] = 2;
    assert_eq!(decode(&bytes), Err(DecodeError::Malformed));
}

#[test]
fn decode_peer_list_count_mismatch() {
    // Announces two peers but carries bytes for one.
    let mut bytes = encode(&NetworkMessage::PeerList { peers: vec![v4(1, 2, 3, 4, 5)] });
    bytes[1] = 2;
    assert_eq!(decode(&bytes), Err(DecodeError::Malformed));
}

#[test]
fn decode_peer_list_truncated_body() {
    let mut bytes = encode(&NetworkMessage::PeerList { peers: vec![v4(1, 2, 3, 4, 5)] });
    bytes.pop();
    assert_eq!(decode(&bytes), Err(DecodeError::Malformed));
}

#[test]
fn decode_peer_list_bad_entry_flag() {
    let mut bytes = encode(&NetworkMessage::PeerList { peers: vec![v4(1, 2, 3, 4, 5)] });
    bytes[9] = 7;
    assert_eq!(decode(&bytes), Err(DecodeError::Malformed));
}
