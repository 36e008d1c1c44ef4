use ncp::address::PeerAddress;
use ncp::codec::{Message, SignalType};
use ncp::discovery::{announcement_payload, process_announcement, DiscoveryOutcome};
use ncp::manager::{
    discovery_listen_port, f32_bits_from_u16, handshake_message, initiation_targets, node_address,
    should_initiate,
};
use ncp::registry::PeerRegistry;
use ncp::session::{session_step, ReadEvent, SessionState};

fn addr(oct3: u8, port: u16) -> PeerAddress {
    PeerAddress::new(10, 0, 0, oct3, port)
}

#[test]
fn tie_break_exactly_one_initiates() {
    let pairs = [
        (addr(1, 5003), addr(2, 5003)),
        (addr(1, 5003), addr(1, 5004)),
        (addr(1, 5003), addr(200, 80)),
    ];
    for (a, b) in pairs {
        assert_ne!(
            should_initiate(&a, &b),
            should_initiate(&b, &a),
            "exactly one side must initiate"
        );
    }
    let a = addr(1, 5003);
    assert!(!should_initiate(&a, &a));
}

#[test]
fn lower_address_initiates() {
    let low = addr(1, 5003);
    let high = addr(2, 5003);
    assert!(should_initiate(&low, &high));
    assert!(!should_initiate(&high, &low));
}

#[test]
fn targets_are_the_higher_snapshot_entries() {
    let own = addr(5, 5003);
    let snapshot = vec![addr(2, 5003), addr(7, 5003), addr(5, 5004), addr(5, 5002)];
    let targets = initiation_targets(&own, &snapshot);
    assert_eq!(targets, vec![addr(7, 5003), addr(5, 5004)]);
}

#[test]
fn node_addresses_are_derived_from_id() {
    let a = node_address(0);
    assert_eq!(a, PeerAddress::new(127, 0, 0, 1, 5003));
    let b = node_address(7);
    assert_eq!(b.port, 5010);
    assert_eq!(discovery_listen_port(0), 5002);
    assert_eq!(discovery_listen_port(7), 5009);
}

#[test]
fn handshake_payload_is_the_id_as_binary32() {
    for id in [0u16, 1, 2, 3, 9, 10, 42, 255, 256, 1000, 4095, 32768, 65535] {
        assert_eq!(f32_bits_from_u16(id), (id as f32).to_bits(), "id {}", id);
    }
    let m = handshake_message(6);
    assert_eq!(m.sender_id, 6);
    assert_eq!(m.signal_type, SignalType::Data);
    assert_eq!(f32::from_bits(m.value_bits), 6.0);
}

#[test]
fn session_closes_normally_on_peer_shutdown() {
    let (next, msg) = session_step(SessionState::Open, &ReadEvent::PeerClosed);
    assert_eq!(next, SessionState::ClosedNormal);
    assert!(msg.is_none());
}

#[test]
fn session_stays_open_while_frames_decode() {
    let frame = Message::new(3, SignalType::Nomination, 0x7F800000).encode();
    let (next, msg) = session_step(SessionState::Open, &ReadEvent::Frame(frame));
    assert_eq!(next, SessionState::Open);
    let m = msg.expect("a well-formed frame yields a message");
    assert_eq!(m.sender_id, 3);
    assert_eq!(m.signal_type, SignalType::Nomination);
    let (still_open, none) = session_step(SessionState::Open, &ReadEvent::NoData);
    assert_eq!(still_open, SessionState::Open);
    assert!(none.is_none());
}

#[test]
fn session_closes_with_error_on_bad_frame_or_read_failure() {
    let bad_tag = vec![0, 3, 9, 0, 0, 0, 0];
    let (next, msg) = session_step(SessionState::Open, &ReadEvent::Frame(bad_tag));
    assert_eq!(next, SessionState::ClosedError);
    assert!(msg.is_none());
    let short = vec![1, 2, 3];
    let (next, _) = session_step(SessionState::Open, &ReadEvent::Frame(short));
    assert_eq!(next, SessionState::ClosedError);
    let (next, _) = session_step(SessionState::Open, &ReadEvent::ReadFailed);
    assert_eq!(next, SessionState::ClosedError);
}

#[test]
fn closed_sessions_ignore_events() {
    for state in [SessionState::ClosedNormal, SessionState::ClosedError] {
        let frame = Message::new(1, SignalType::Data, 0).encode();
        let (next, msg) = session_step(state, &ReadEvent::Frame(frame));
        assert_eq!(next, state);
        assert!(msg.is_none());
    }
}

#[test]
fn discovery_records_new_peers_once() {
    let own = addr(1, 5003);
    let other = addr(2, 5003);
    let mut reg = PeerRegistry::new(own);
    assert_eq!(
        process_announcement(&mut reg, &announcement_payload(&other)),
        DiscoveryOutcome::Added
    );
    assert_eq!(
        process_announcement(&mut reg, &announcement_payload(&other)),
        DiscoveryOutcome::AlreadyKnown
    );
    assert_eq!(
        process_announcement(&mut reg, &announcement_payload(&own)),
        DiscoveryOutcome::SelfAnnouncement
    );
    assert_eq!(
        process_announcement(&mut reg, &b"not an address".to_vec()),
        DiscoveryOutcome::Invalid
    );
    assert_eq!(reg.peers.len(), 1);
}

#[test]
fn two_nodes_discover_and_exactly_one_connects() {
    // nodes 10.0.0.1:5003 (id 0) and 10.0.0.2:5003 (id 1)
    let node0 = addr(1, 5003);
    let node1 = addr(2, 5003);
    let mut reg0 = PeerRegistry::new(node0);
    let mut reg1 = PeerRegistry::new(node1);

    // both hear each other's broadcast announcement
    assert_eq!(
        process_announcement(&mut reg0, &announcement_payload(&node1)),
        DiscoveryOutcome::Added
    );
    assert_eq!(
        process_announcement(&mut reg1, &announcement_payload(&node0)),
        DiscoveryOutcome::Added
    );

    // the lower address initiates; the higher must not
    let targets0 = initiation_targets(&node0, &reg0.snapshot());
    let targets1 = initiation_targets(&node1, &reg1.snapshot());
    assert_eq!(targets0, vec![node1]);
    assert_eq!(targets1, vec![]);

    // node 0 sends its handshake; node 1's session decodes it
    let handshake = handshake_message(0);
    let frame = handshake.encode();
    let (state, msg) = session_step(SessionState::Open, &ReadEvent::Frame(frame));
    assert_eq!(state, SessionState::Open);
    let m = msg.expect("the handshake frame must decode");
    assert_eq!(m.sender_id, 0);
    assert_eq!(m.signal_type, SignalType::Data);
    assert_eq!(f32::from_bits(m.value_bits), 0.0);
}
