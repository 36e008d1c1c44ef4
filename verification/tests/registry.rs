use ncp::address::PeerAddress;
use ncp::registry::PeerRegistry;

fn addr(oct3: u8, port: u16) -> PeerAddress {
    PeerAddress::new(10, 0, 0, oct3, port)
}

#[test]
fn excludes_own_address() {
    let own = addr(1, 5003);
    let mut reg = PeerRegistry::new(own);
    assert!(!reg.add_if_absent(own));
    assert_eq!(reg.peers.len(), 0);
    assert!(!reg.contains(&own));
}

#[test]
fn add_is_idempotent() {
    let mut reg = PeerRegistry::new(addr(1, 5003));
    let peer = addr(2, 5003);
    assert!(reg.add_if_absent(peer));
    assert!(!reg.add_if_absent(peer));
    assert_eq!(reg.peers.len(), 1);
    assert!(reg.contains(&peer));
}

#[test]
fn distinct_peers_accumulate() {
    let mut reg = PeerRegistry::new(addr(1, 5003));
    let p2 = addr(2, 5003);
    let p3 = addr(3, 5003);
    let p2_other_port = addr(2, 5004);
    assert!(reg.add_if_absent(p2));
    assert!(reg.add_if_absent(p3));
    assert!(reg.add_if_absent(p2_other_port));
    assert!(!reg.add_if_absent(p3));
    assert_eq!(reg.peers.len(), 3);
}

#[test]
fn snapshot_copies_in_discovery_order() {
    let mut reg = PeerRegistry::new(addr(1, 5003));
    let p3 = addr(3, 5003);
    let p2 = addr(2, 5003);
    reg.add_if_absent(p3);
    reg.add_if_absent(p2);
    let snap = reg.snapshot();
    assert_eq!(snap, vec![p3, p2]);
    // the snapshot is a copy: growing the registry does not change it
    reg.add_if_absent(addr(4, 5003));
    assert_eq!(snap.len(), 2);
}
