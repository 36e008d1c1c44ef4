use ncp::address::{format_address, parse_address, PeerAddress};

fn addr(oct0: u8, oct1: u8, oct2: u8, oct3: u8, port: u16) -> PeerAddress {
    PeerAddress::new(oct0, oct1, oct2, oct3, port)
}

#[test]
fn format_is_host_colon_port_text() {
    assert_eq!(format_address(&addr(10, 0, 0, 1, 5003)), b"10.0.0.1:5003".to_vec());
    assert_eq!(format_address(&addr(127, 0, 0, 1, 5003)), b"127.0.0.1:5003".to_vec());
    assert_eq!(format_address(&addr(0, 0, 0, 0, 0)), b"0.0.0.0:0".to_vec());
    assert_eq!(
        format_address(&addr(255, 255, 255, 255, 65535)),
        b"255.255.255.255:65535".to_vec()
    );
}

#[test]
fn parse_accepts_canonical_text() {
    assert_eq!(
        parse_address(&b"10.0.0.1:5003".to_vec()),
        Some(addr(10, 0, 0, 1, 5003))
    );
    assert_eq!(
        parse_address(&b"255.255.255.255:65535".to_vec()),
        Some(addr(255, 255, 255, 255, 65535))
    );
    assert_eq!(parse_address(&b"0.0.0.0:0".to_vec()), Some(addr(0, 0, 0, 0, 0)));
}

#[test]
fn parse_round_trips_format() {
    for a in [
        addr(10, 0, 0, 1, 5003),
        addr(127, 0, 0, 1, 5004),
        addr(192, 168, 1, 200, 80),
        addr(0, 0, 0, 0, 0),
        addr(255, 255, 255, 255, 65535),
    ] {
        assert_eq!(parse_address(&format_address(&a)), Some(a));
    }
}

#[test]
fn parse_rejects_malformed_text() {
    let bad: &[&[u8]] = &[
        b"",
        b"10.0.0.1",
        b"10.0.0.1:",
        b":5003",
        b"10.0.0:5003",
        b"10.0.0.0.1:5003",
        b"10.0.0.1:5003 ",
        b" 10.0.0.1:5003",
        b"10.0.0.x:5003",
        b"256.0.0.1:5003",
        b"10.0.0.1:65536",
        b"01.0.0.1:5003",
        b"10.0.0.1:05003",
        b"10..0.1:5003",
        b"hello",
    ];
    for payload in bad {
        assert_eq!(parse_address(&payload.to_vec()), None, "accepted {:?}", payload);
    }
}

#[test]
fn precedes_is_lexicographic_then_port() {
    let a = addr(10, 0, 0, 1, 5003);
    let b = addr(10, 0, 0, 2, 5003);
    let c = addr(10, 0, 0, 1, 5004);
    let d = addr(9, 255, 255, 255, 65535);
    assert!(a.precedes(&b));
    assert!(!b.precedes(&a));
    assert!(a.precedes(&c));
    assert!(d.precedes(&a));
    assert!(!a.precedes(&a));
}
