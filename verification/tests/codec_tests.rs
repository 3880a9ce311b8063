use wallet_p2p::codec::{decode_frame, decode_message, encode_frame, encode_message, MsgId, NetworkMessage};

#[test]
fn wallet_update_round_trip() {
    let m = NetworkMessage::WalletUpdate { address: b"0xabc".to_vec(), balance_nanos: 1_500_000_000 };
    let bytes = encode_message(&m);
    let back = decode_message(&bytes).expect("a fresh encoding must decode");
    assert_eq!(back, m);
}

#[test]
fn transaction_round_trip() {
    let m = NetworkMessage::Transaction {
        from: b"0xaaa".to_vec(),
        to: b"0xbbb".to_vec(),
        amount_nanos: 42,
        chain_type: b"ethereum".to_vec(),
    };
    let bytes = encode_message(&m);
    assert_eq!(decode_message(&bytes), Some(m));
}

#[test]
fn peer_discovery_round_trip() {
    let m = NetworkMessage::PeerDiscovery {
        peers: vec![b"peer-one".to_vec(), b"".to_vec(), b"peer-three".to_vec()],
    };
    let bytes = encode_message(&m);
    assert_eq!(decode_message(&bytes), Some(m));
}

#[test]
fn frame_round_trip() {
    let id = MsgId { source: 7, seq: 99 };
    let m = NetworkMessage::WalletUpdate { address: b"0xabc".to_vec(), balance_nanos: 5 };
    let frame = encode_frame(id, b"wallet-updates", &m);
    let (id2, topic2, m2) = decode_frame(&frame).expect("a fresh frame must decode");
    assert_eq!(id2, id);
    assert_eq!(topic2, b"wallet-updates".to_vec());
    assert_eq!(m2, m);
}

#[test]
fn wallet_update_exact_bytes() {
    let m = NetworkMessage::WalletUpdate { address: b"ab".to_vec(), balance_nanos: 258 };
    let bytes = encode_message(&m);
    let expected: Vec<u8> = vec![
        1, // tag
        2, 0, 0, 0, 0, 0, 0, 0, // address length
        97, 98, // "ab"
        2, 1, 0, 0, 0, 0, 0, 0, // 258 little-endian
    ];
    assert_eq!(bytes, expected);
}

#[test]
fn empty_input_is_malformed() {
    assert_eq!(decode_message(&[]), None);
    assert_eq!(decode_frame(&[]), None);
}

#[test]
fn unknown_tag_is_malformed() {
    assert_eq!(decode_message(&[9, 0, 0, 0]), None);
}

#[test]
fn truncated_frame_is_malformed() {
    let id = MsgId { source: 1, seq: 1 };
    let m = NetworkMessage::WalletUpdate { address: b"0xabc".to_vec(), balance_nanos: 10 };
    let frame = encode_frame(id, b"t", &m);
    let truncated = &frame[..frame.len() - 3];
    assert_eq!(decode_frame(truncated), None);
}

#[test]
fn trailing_bytes_are_malformed() {
    let m = NetworkMessage::WalletUpdate { address: b"x".to_vec(), balance_nanos: 1 };
    let mut bytes = encode_message(&m);
    bytes.push(0);
    assert_eq!(decode_message(&bytes), None);
}

#[test]
fn oversized_length_prefix_is_malformed() {
    // Tag and a length prefix far beyond the buffer.
    let bytes: Vec<u8> = vec![1, 255, 255, 255, 255, 255, 255, 255, 255];
    assert_eq!(decode_message(&bytes), None);
}
