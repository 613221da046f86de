//! Multi-node scenarios, run over the verified core: several `State`
//! values connected by an in-test message router that carries every
//! packet through the wire codec, the way the surrounding application's
//! peer actors would.

use std::collections::VecDeque;
use gossip_ledger::codec::{decode_packet, encode_packet};
use gossip_ledger::crypto::gen_keys;
use gossip_ledger::state::{Action, State};
use gossip_ledger::types::{AccountTransaction, NodeName, Packet, Peer, SignedAccountTransaction, SocketAddress, Timestamp, Amount};

fn addr(node: usize) -> SocketAddress {
    SocketAddress { ip: 0x7f000001, port: 9000 + node as u16 }
}

struct Net {
    nodes: Vec<State>,
    // outbound-queue id -> (receiving node, the handle the receiver sees the sender under)
    routes: Vec<(usize, Peer)>,
    queue: VecDeque<(usize, Packet, Peer)>,
}

fn net(n: usize) -> Net {
    let nodes = (0..n).map(|i| State::new(addr(i), NodeName(format!("node{}", i)))).collect();
    Net { nodes, routes: Vec::new(), queue: VecDeque::new() }
}

/// Opens a bidirectional connection between nodes `a` and `b`, the way
/// the application would: the dialing side registers the new handle, and
/// each side advertises its listening address over the connection.
fn connect(net: &mut Net, a: usize, b: usize) {
    let ch_ab = net.routes.len() as u64;
    let ch_ba = ch_ab + 1;
    let handle_of_b = Peer { address: addr(b), channel: ch_ab };
    let handle_of_a = Peer { address: addr(a), channel: ch_ba };
    net.routes.push((b, handle_of_a));
    net.routes.push((a, handle_of_b));
    net.nodes[a].peers.add_peer(addr(b), handle_of_b).unwrap();
    // the accepting side learns the dialer through an address advertisement
    net.queue.push_back((b, Packet::AddPeer(addr(a)), handle_of_a));
    pump(net);
}

/// Carries one action of node `src` to its destination, through the codec.
fn route(net: &mut Net, action: Action) {
    match action {
        Action::Send { peer, packet } => {
            let bytes = encode_packet(&packet);
            let (decoded, consumed) = decode_packet(&bytes, 0).unwrap();
            assert_eq!(consumed, bytes.len());
            let (dest, from) = net.routes[peer.channel as usize];
            net.queue.push_back((dest, decoded, from));
        },
        // this little network accepts no new connections
        Action::Dial { .. } => {},
    }
}

/// Delivers queued packets until the network is quiet.
fn pump(net: &mut Net) {
    while let Some((dest, packet, from)) = net.queue.pop_front() {
        let actions = net.nodes[dest].handle_packet(packet, from);
        for action in actions {
            route(net, action);
        }
    }
}

/// Feeds a local transaction into node `i`'s admission pipeline and lets
/// the network settle.
fn send(net: &mut Net, i: usize, strx: SignedAccountTransaction) {
    let actions = net.nodes[i].broadcast(&strx);
    for action in actions {
        route(net, action);
    }
    pump(net);
}

#[test]
fn two_connected_nodes_converge_on_one_transfer() {
    let mut net = net(2);
    connect(&mut net, 0, 1);
    let key_a = gen_keys();
    let key_b = gen_keys();
    let trx = AccountTransaction {
        to: key_b.public,
        from: key_a.public,
        amount: Amount(100),
        timestamp: Timestamp(10),
    };
    let strx = key_a.private.sign(trx);
    send(&mut net, 0, strx);

    assert_eq!(net.nodes[0].ledger.get(&key_a.public), Some(Amount(-100)));
    assert_eq!(net.nodes[0].ledger.get(&key_b.public), Some(Amount(100)));
    assert_eq!(&net.nodes[0].ledger, &net.nodes[1].ledger);
    assert!(net.nodes[0].history.contains(&trx));
    assert!(net.nodes[1].history.contains(&trx));
}

#[test]
fn flooding_crosses_multiple_hops() {
    // A - B - C in a chain; A and C are not directly connected
    let mut net = net(3);
    connect(&mut net, 0, 1);
    connect(&mut net, 1, 2);
    assert!(!net.nodes[0].peers.contains(&addr(2)));
    assert!(!net.nodes[2].peers.contains(&addr(0)));

    let key_a = gen_keys();
    let key_b = gen_keys();
    let trx = AccountTransaction {
        to: key_b.public,
        from: key_a.public,
        amount: Amount(7),
        timestamp: Timestamp(11),
    };
    send(&mut net, 0, key_a.private.sign(trx));

    assert!(net.nodes[2].history.contains(&trx));
    assert_eq!(net.nodes[2].ledger.get(&key_a.public), Some(Amount(-7)));
    assert_eq!(&net.nodes[0].ledger, &net.nodes[1].ledger);
    assert_eq!(&net.nodes[1].ledger, &net.nodes[2].ledger);
}

#[test]
fn chained_nodes_settle_two_transfers_everywhere() {
    let mut net = net(3);
    connect(&mut net, 0, 1);
    connect(&mut net, 1, 2);

    let key_a = gen_keys();
    let key_b = gen_keys();
    let key_c = gen_keys();
    let trx_1 = AccountTransaction {
        to: key_b.public,
        from: key_a.public,
        amount: Amount(100),
        timestamp: Timestamp(21),
    };
    let trx_2 = AccountTransaction {
        to: key_c.public,
        from: key_b.public,
        amount: Amount(150),
        timestamp: Timestamp(22),
    };
    send(&mut net, 0, key_a.private.sign(trx_1));
    send(&mut net, 1, key_b.private.sign(trx_2));

    for i in 0..3 {
        assert_eq!(net.nodes[i].ledger.get(&key_a.public), Some(Amount(-100)));
        assert_eq!(net.nodes[i].ledger.get(&key_b.public), Some(Amount(-50)));
        assert_eq!(net.nodes[i].ledger.get(&key_c.public), Some(Amount(150)));
    }
    assert_eq!(&net.nodes[0].ledger, &net.nodes[1].ledger);
    assert_eq!(&net.nodes[1].ledger, &net.nodes[2].ledger);
}

#[test]
fn replay_across_the_network_does_not_double_apply() {
    let mut net = net(2);
    connect(&mut net, 0, 1);
    let key_a = gen_keys();
    let key_b = gen_keys();
    let trx = AccountTransaction {
        to: key_b.public,
        from: key_a.public,
        amount: Amount(5),
        timestamp: Timestamp(30),
    };
    let strx = key_a.private.sign(trx);
    send(&mut net, 0, strx);
    // the same signed transaction enters the network again, at either node
    send(&mut net, 0, strx);
    send(&mut net, 1, strx);

    for i in 0..2 {
        assert_eq!(net.nodes[i].ledger.get(&key_a.public), Some(Amount(-5)));
        assert_eq!(net.nodes[i].ledger.get(&key_b.public), Some(Amount(5)));
        assert_eq!(net.nodes[i].history.len(), 1);
    }
}
