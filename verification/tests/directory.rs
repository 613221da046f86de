use gossip_ledger::peers::{DirectoryError, Peers};
use gossip_ledger::types::{NodeName, Peer, SocketAddress};

fn addr(port: u16) -> SocketAddress {
    SocketAddress { ip: 0x7f000001, port }
}

fn handle(port: u16, channel: u64) -> Peer {
    Peer { address: addr(port), channel }
}

fn directory() -> Peers {
    Peers::new(addr(9000), NodeName(String::from("node")))
}

#[test]
fn new_directory_knows_only_itself() {
    let d = directory();
    assert_eq!(d.len(), 1);
    assert!(d.contains(&addr(9000)));
    assert!(!d.contains(&addr(9001)));
}

#[test]
fn add_peer_registers_an_active_address() {
    let mut d = directory();
    assert_eq!(d.add_peer(addr(9001), handle(9001, 1)), Ok(()));
    assert!(d.contains(&addr(9001)));
    assert_eq!(d.len(), 2);
    assert_eq!(d.clone_iter().len(), 1);
}

#[test]
fn add_peer_rejects_rebinding_to_another_handle() {
    let mut d = directory();
    assert_eq!(d.add_peer(addr(9001), handle(9001, 1)), Ok(()));
    // another connection (a different remote address) claims the same slot
    assert_eq!(
        d.add_peer(addr(9001), handle(9002, 2)),
        Err(DirectoryError::AlreadyBound)
    );
    // first writer wins: the first handle stays
    let active = d.clone_iter();
    assert_eq!(active.len(), 1);
    assert_eq!(active[0].1.address, addr(9001));
    // the same handle again is a harmless no-op
    assert_eq!(d.add_peer(addr(9001), handle(9001, 7)), Ok(()));
    assert_eq!(d.clone_iter().len(), 1);
}

#[test]
fn add_peer_rejects_own_address() {
    let mut d = directory();
    assert_eq!(
        d.add_peer(addr(9000), handle(9000, 1)),
        Err(DirectoryError::AlreadyBound)
    );
}

#[test]
fn inactive_addresses_count_as_known() {
    let mut d = directory();
    assert!(d._add_inactive(addr(9005)));
    assert!(!d._add_inactive(addr(9005)));
    assert!(!d._add_inactive(addr(9000)));
    assert!(d.contains(&addr(9005)));
    assert_eq!(d.len(), 2);
}

#[test]
fn binding_promotes_an_inactive_address() {
    let mut d = directory();
    assert!(d._add_inactive(addr(9001)));
    assert_eq!(d.len(), 2);
    assert_eq!(d.add_peer(addr(9001), handle(9001, 1)), Ok(()));
    // still known once, now as an active peer
    assert_eq!(d.len(), 2);
    assert!(d.contains(&addr(9001)));
}

#[test]
fn should_dial_skips_known_and_self() {
    let mut d = directory();
    assert!(!d.should_dial(&addr(9000)));
    assert!(d.should_dial(&addr(9001)));
    d.add_peer(addr(9001), handle(9001, 1)).unwrap();
    assert!(!d.should_dial(&addr(9001)));
    d._add_inactive(addr(9002));
    assert!(!d.should_dial(&addr(9002)));
}

#[test]
fn small_directory_samples_everything_including_self() {
    let mut d = directory();
    d.add_peer(addr(9001), handle(9001, 1)).unwrap();
    d._add_inactive(addr(9002));
    let sample = d.to_vec();
    assert_eq!(sample.len(), 3);
    assert!(sample.contains(&addr(9000)));
    assert!(sample.contains(&addr(9001)));
    assert!(sample.contains(&addr(9002)));
}

#[test]
fn sample_is_capped_at_ten() {
    let mut d = directory();
    for i in 0..12u16 {
        d.add_peer(addr(9001 + i), handle(9001 + i, i as u64)).unwrap();
    }
    let sample = d.to_vec();
    assert_eq!(sample.len(), 10);
    for a in &sample {
        assert!(d.contains(a));
    }
}

#[test]
fn sample_excludes_self_once_ten_peers_are_known() {
    let mut d = directory();
    for i in 0..9u16 {
        d.add_peer(addr(9001 + i), handle(9001 + i, i as u64)).unwrap();
    }
    // nine peers plus self: ten known, so self no longer offered
    let sample = d.to_vec();
    assert_eq!(sample.len(), 9);
    assert!(!sample.contains(&addr(9000)));
}

#[test]
fn sample_includes_self_below_the_threshold() {
    let mut d = directory();
    for i in 0..8u16 {
        d.add_peer(addr(9001 + i), handle(9001 + i, i as u64)).unwrap();
    }
    // eight peers plus self: nine known, self still offered
    let sample = d.to_vec();
    assert_eq!(sample.len(), 9);
    assert!(sample.contains(&addr(9000)));
}

#[test]
fn sample_has_no_duplicates() {
    let mut d = directory();
    for i in 0..12u16 {
        d.add_peer(addr(9001 + i), handle(9001 + i, i as u64)).unwrap();
    }
    let sample = d.to_vec();
    for i in 0..sample.len() {
        for j in 0..i {
            assert_ne!(sample[i], sample[j]);
        }
    }
}

#[test]
fn directory_equality_compares_known_addresses() {
    let mut a = directory();
    let mut b = directory();
    assert_eq!(a, b);
    a.add_peer(addr(9001), handle(9001, 1)).unwrap();
    assert_ne!(a, b);
    b.add_peer(addr(9001), handle(9001, 2)).unwrap();
    assert_eq!(a, b);
}
