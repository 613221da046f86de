use gossip_ledger::codec::{decode_packet, encode_packet};
use gossip_ledger::crypto::gen_keys;
use gossip_ledger::state::{Action, State};
use gossip_ledger::types::{AccountTransaction, NodeName, Packet, Peer, SignedAccountTransaction, SocketAddress, Timestamp, Amount};

fn addr(port: u16) -> SocketAddress {
    SocketAddress { ip: 0x7f000001, port }
}

fn handle(port: u16, channel: u64) -> Peer {
    Peer { address: addr(port), channel }
}

fn node(port: u16) -> State {
    State::new(addr(port), NodeName(String::from("node")))
}

#[test]
fn broadcast_admits_once_and_fans_out_once_per_peer() {
    let mut state = node(9000);
    state.peers.add_peer(addr(9001), handle(9001, 1)).unwrap();
    state.peers.add_peer(addr(9002), handle(9002, 2)).unwrap();

    let keys = gen_keys();
    let other = gen_keys();
    let trx = AccountTransaction {
        to: other.public,
        from: keys.public,
        amount: Amount(100),
        timestamp: Timestamp(1),
    };
    let strx = keys.private.sign(trx);

    let first = state.broadcast(&strx);
    assert_eq!(first.len(), 2);
    for action in &first {
        match action {
            Action::Send { packet, .. } => assert_eq!(*packet, Packet::Broadcast(strx)),
            Action::Dial { .. } => panic!("admission never dials"),
        }
    }
    assert_eq!(state.ledger.get(&keys.public), Some(Amount(-100)));
    assert_eq!(state.ledger.get(&other.public), Some(Amount(100)));
    assert!(state.history.contains(&trx));

    // replaying the same signed transaction changes nothing and sends nothing
    for _ in 0..3 {
        let again = state.broadcast(&strx);
        assert!(again.is_empty());
        assert_eq!(state.ledger.get(&keys.public), Some(Amount(-100)));
        assert_eq!(state.ledger.get(&other.public), Some(Amount(100)));
    }
}

#[test]
fn invalid_signature_is_never_applied_nor_rebroadcast() {
    let mut state = node(9000);
    state.peers.add_peer(addr(9001), handle(9001, 1)).unwrap();

    let keys = gen_keys();
    let other = gen_keys();
    let trx = AccountTransaction {
        to: other.public,
        from: keys.public,
        amount: Amount(100),
        timestamp: Timestamp(1),
    };
    let strx = keys.private.sign(trx);
    let forged = SignedAccountTransaction {
        signature: strx.signature,
        trx: AccountTransaction { amount: Amount(999), ..trx },
    };

    let actions = state.broadcast(&forged);
    assert!(actions.is_empty());
    assert_eq!(state.ledger.get(&keys.public), None);
    assert_eq!(state.ledger.get(&other.public), None);
    assert_eq!(state.ledger.len(), 0);
}

#[test]
fn replaying_the_same_transaction_bytes_applies_once() {
    let mut state = node(9000);
    let from_conn = handle(9005, 7);

    let keys = gen_keys();
    let other = gen_keys();
    let trx = AccountTransaction {
        to: other.public,
        from: keys.public,
        amount: Amount(25),
        timestamp: Timestamp(2),
    };
    let strx = keys.private.sign(trx);
    let bytes = encode_packet(&Packet::Broadcast(strx));

    let (packet1, _) = decode_packet(&bytes, 0).unwrap();
    let actions1 = state.handle_packet(packet1, from_conn);
    assert!(actions1.is_empty()); // no active peers to fan out to
    assert_eq!(state.ledger.get(&keys.public), Some(Amount(-25)));
    assert_eq!(state.ledger.get(&other.public), Some(Amount(25)));

    // the exact same bytes arrive again
    let (packet2, _) = decode_packet(&bytes, 0).unwrap();
    let actions2 = state.handle_packet(packet2, from_conn);
    assert!(actions2.is_empty());
    assert_eq!(state.ledger.get(&keys.public), Some(Amount(-25)));
    assert_eq!(state.ledger.get(&other.public), Some(Amount(25)));
    assert_eq!(state.history.len(), 1);
}

#[test]
fn get_peers_is_answered_with_a_sample_to_the_sender() {
    let mut state = node(9000);
    state.peers.add_peer(addr(9001), handle(9001, 1)).unwrap();
    let from_conn = handle(9001, 1);
    let actions = state.handle_packet(Packet::GetPeers, from_conn);
    assert_eq!(actions.len(), 1);
    match &actions[0] {
        Action::Send { peer, packet } => {
            assert_eq!(*peer, from_conn);
            match packet {
                Packet::ResponseGetPeers(addrs) => {
                    assert!(addrs.len() <= 10);
                    assert!(addrs.contains(&addr(9001)));
                    assert!(addrs.contains(&addr(9000)));
                },
                _ => panic!("expected a peers response"),
            }
        },
        Action::Dial { .. } => panic!("expected a send"),
    }
}

#[test]
fn peers_response_plans_dials_for_fresh_addresses_only() {
    let mut state = node(9000);
    state.peers.add_peer(addr(9001), handle(9001, 1)).unwrap();
    let listed = vec![
        addr(9000), // self: skipped
        addr(9001), // already active: skipped
        addr(9002),
        addr(9002), // repeat within the list: dialed once
        addr(9003),
    ];
    let actions = state.handle_packet(Packet::ResponseGetPeers(listed), handle(9001, 1));
    assert_eq!(actions.len(), 2);
    match &actions[0] {
        Action::Dial { address } => assert_eq!(*address, addr(9002)),
        Action::Send { .. } => panic!("expected a dial"),
    }
    match &actions[1] {
        Action::Dial { address } => assert_eq!(*address, addr(9003)),
        Action::Send { .. } => panic!("expected a dial"),
    }
}

#[test]
fn add_peer_packet_binds_the_sending_connection() {
    let mut state = node(9000);
    let from_conn = handle(9050, 3);
    let actions = state.handle_packet(Packet::AddPeer(addr(9010)), from_conn);
    assert!(actions.is_empty());
    assert!(state.peers.contains(&addr(9010)));
    let active = state.peers.clone_iter();
    assert_eq!(active.len(), 1);
    assert_eq!(active[0].0, addr(9010));
    assert_eq!(active[0].1, from_conn);

    // a conflicting advertisement changes nothing
    let actions = state.handle_packet(Packet::AddPeer(addr(9010)), handle(9051, 4));
    assert!(actions.is_empty());
    assert_eq!(state.peers.clone_iter().len(), 1);
    assert_eq!(state.peers.clone_iter()[0].1, from_conn);
}
