use gossip_ledger::codec::{decode_packet, drain_packets, encode_packet, encode_transaction, DecodeError};
use gossip_ledger::types::{AccountTransaction, Id, Packet, Signature, SignedAccountTransaction, SocketAddress, Timestamp, Amount};

fn addr(ip: u32, port: u16) -> SocketAddress {
    SocketAddress { ip, port }
}

fn sample_transaction() -> AccountTransaction {
    AccountTransaction {
        to: Id::from_bytes([7u8; 32]),
        from: Id::from_bytes([9u8; 32]),
        amount: Amount(-1),
        timestamp: Timestamp(0x0102030405060708),
    }
}

fn sample_signed() -> SignedAccountTransaction {
    SignedAccountTransaction { signature: Signature([0xABu8; 64]), trx: sample_transaction() }
}

#[test]
fn encode_getpeers_is_one_tag_byte() {
    assert_eq!(encode_packet(&Packet::GetPeers), vec![0u8]);
}

#[test]
fn encode_addpeer_exact_bytes() {
    let p = Packet::AddPeer(addr(0x7f000001, 0x1234));
    let bytes = encode_packet(&p);
    assert_eq!(bytes, vec![1u8, 0x01, 0x00, 0x00, 0x7f, 0x34, 0x12]);
}

#[test]
fn encode_transaction_exact_layout() {
    let t = sample_transaction();
    let bytes = encode_transaction(&t);
    assert_eq!(bytes.len(), 80);
    assert_eq!(&bytes[0..32], &[7u8; 32]);
    assert_eq!(&bytes[32..64], &[9u8; 32]);
    // -1 in two's complement, little-endian
    assert_eq!(&bytes[64..72], &[0xFFu8; 8]);
    // timestamp little-endian
    assert_eq!(&bytes[72..80], &[0x08, 0x07, 0x06, 0x05, 0x04, 0x03, 0x02, 0x01]);
}

#[test]
fn roundtrip_getpeers() {
    let bytes = encode_packet(&Packet::GetPeers);
    let (p, n) = decode_packet(&bytes, 0).unwrap();
    assert_eq!(n, 1);
    assert_eq!(p, Packet::GetPeers);
}

#[test]
fn roundtrip_addpeer() {
    let original = Packet::AddPeer(addr(0x0a000001, 65535));
    let bytes = encode_packet(&original);
    let (p, n) = decode_packet(&bytes, 0).unwrap();
    assert_eq!(n, bytes.len());
    assert_eq!(p, original);
    assert_eq!(encode_packet(&p), bytes);
}

#[test]
fn roundtrip_broadcast() {
    let original = Packet::Broadcast(sample_signed());
    let bytes = encode_packet(&original);
    assert_eq!(bytes.len(), 145);
    assert_eq!(bytes[0], 2);
    let (p, n) = decode_packet(&bytes, 0).unwrap();
    assert_eq!(n, 145);
    assert_eq!(p, original);
}

#[test]
fn roundtrip_response_get_peers() {
    let original = Packet::ResponseGetPeers(vec![
        addr(0x7f000001, 9000),
        addr(0x7f000001, 9001),
        addr(0xc0a80101, 80),
    ]);
    let bytes = encode_packet(&original);
    assert_eq!(bytes.len(), 1 + 8 + 3 * 6);
    let (p, n) = decode_packet(&bytes, 0).unwrap();
    assert_eq!(n, bytes.len());
    assert_eq!(p, original);
}

#[test]
fn roundtrip_response_empty() {
    let original = Packet::ResponseGetPeers(vec![]);
    let bytes = encode_packet(&original);
    let (p, n) = decode_packet(&bytes, 0).unwrap();
    assert_eq!(n, 9);
    assert_eq!(p, original);
}

#[test]
fn decode_rejects_empty() {
    assert_eq!(decode_packet(&[], 0), Err(DecodeError::Malformed));
}

#[test]
fn decode_rejects_unknown_tag() {
    assert_eq!(decode_packet(&[9u8, 0, 0], 0), Err(DecodeError::Malformed));
}

#[test]
fn decode_rejects_truncated_payload() {
    let bytes = encode_packet(&Packet::AddPeer(addr(1, 2)));
    assert_eq!(decode_packet(&bytes[..bytes.len() - 1], 0), Err(DecodeError::Malformed));
    let bytes = encode_packet(&Packet::Broadcast(sample_signed()));
    assert_eq!(decode_packet(&bytes[..100], 0), Err(DecodeError::Malformed));
}

#[test]
fn decode_rejects_short_address_list() {
    let original = Packet::ResponseGetPeers(vec![addr(1, 1), addr(2, 2)]);
    let bytes = encode_packet(&original);
    // count says two addresses but only one follows
    assert_eq!(decode_packet(&bytes[..bytes.len() - 6], 0), Err(DecodeError::Malformed));
}

#[test]
fn decode_at_offset() {
    let mut bytes = encode_packet(&Packet::GetPeers);
    let second = encode_packet(&Packet::AddPeer(addr(5, 6)));
    bytes.extend_from_slice(&second);
    let (p1, n1) = decode_packet(&bytes, 0).unwrap();
    assert_eq!(p1, Packet::GetPeers);
    let (p2, n2) = decode_packet(&bytes, n1).unwrap();
    assert_eq!(p2, Packet::AddPeer(addr(5, 6)));
    assert_eq!(n1 + n2, bytes.len());
}

#[test]
fn drain_reads_whole_packets_and_stops() {
    let mut bytes = encode_packet(&Packet::GetPeers);
    bytes.extend_from_slice(&encode_packet(&Packet::Broadcast(sample_signed())));
    let boundary = bytes.len();
    // a third packet arrives cut short
    let partial = encode_packet(&Packet::AddPeer(addr(3, 4)));
    bytes.extend_from_slice(&partial[..4]);
    let (packets, consumed) = drain_packets(&bytes);
    assert_eq!(packets.len(), 2);
    assert_eq!(packets[0], Packet::GetPeers);
    assert_eq!(packets[1], Packet::Broadcast(sample_signed()));
    assert_eq!(consumed, boundary);
}

#[test]
fn drain_empty_buffer() {
    let (packets, consumed) = drain_packets(&[]);
    assert!(packets.is_empty());
    assert_eq!(consumed, 0);
}

#[test]
fn replaying_same_bytes_decodes_same_packet() {
    let original = Packet::Broadcast(sample_signed());
    let bytes = encode_packet(&original);
    let (p1, n1) = decode_packet(&bytes, 0).unwrap();
    let (p2, n2) = decode_packet(&bytes, 0).unwrap();
    assert_eq!(n1, n2);
    assert_eq!(p1, p2);
    assert_eq!(p1, original);
}
