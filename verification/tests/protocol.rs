use java_service_steward::error::Error;
use java_service_steward::protocol::{
    advance_handshake, generate_key, hex_key, port_plan, presents_key, Framer, HandshakeRead,
    HandshakeStep, Packet, PortPlan, KEY, PING, START,
};

const STARTED_PARTIAL: u8 = 106;

#[test]
fn packet_round_trip() {
    let packet = Packet::text(START, "start");
    let mut bytes = Vec::new();
    packet.write_to(&mut bytes).expect("encode packet");
    assert_eq!(bytes, [START, b's', b't', b'a', b'r', b't', 0]);
    assert_eq!(
        Packet::read_from(bytes.as_slice()).expect("decode packet"),
        Some(packet)
    );
}

#[test]
fn rejects_embedded_nul() {
    let packet = Packet {
        code: START,
        message: b"bad\0message".to_vec(),
    };
    assert!(packet.write_to(&mut Vec::new()).is_err());
}

#[test]
fn framer_keeps_partial_packets_across_feeds() {
    let mut framer = Framer::default();
    assert!(framer.feed(&[PING, b'p', b'i']).expect("feed").is_empty());
    assert!(!framer.is_idle());
    let packets = framer
        .feed(&[b'n', b'g', 0, START, b's', 0, STARTED_PARTIAL])
        .expect("feed");
    assert_eq!(packets.len(), 2);
    assert_eq!(packets[0], Packet::text(PING, "ping"));
    assert_eq!(packets[1], Packet::text(START, "s"));
    assert!(!framer.is_idle());
    let packets = framer.feed(&[0]).expect("feed");
    assert_eq!(packets, [Packet::text(STARTED_PARTIAL, "")]);
    assert!(framer.is_idle());
}

#[test]
fn reading_an_empty_stream_and_a_cut_packet() {
    assert_eq!(Packet::read_from(&[]).expect("empty"), None);
    assert!(Packet::read_from(&[START, b'x']).is_err());
    let lossy = Packet { code: START, message: b"caf\xe9".to_vec() };
    assert_eq!(lossy.message_lossy(), "caf\u{fffd}");
}

#[test]
fn keys_are_hexadecimal_and_checked_byte_for_byte() {
    assert_eq!(hex_key(&[0x00, 0x0f, 0xa5, 0xff]), "000fa5ff");
    let key = generate_key().expect("random key");
    assert_eq!(key.len(), 64);
    assert!(key.chars().all(|c| c.is_ascii_hexdigit() && !c.is_ascii_uppercase()));
    assert_ne!(generate_key().expect("second key"), key);
    assert!(presents_key(&Packet::text(KEY, "secret"), "secret"));
    assert!(!presents_key(&Packet::text(KEY, "secreT"), "secret"));
    assert!(!presents_key(&Packet::text(START, "secret"), "secret"));
}

#[test]
fn port_ranges_are_checked() {
    assert_eq!(port_plan(Some(32_100), 1, 0).expect("fixed"), PortPlan::Fixed(32_100));
    assert_eq!(port_plan(Some(0), 32_000, 32_999).expect("range"), PortPlan::Range(32_000, 32_999));
    assert_eq!(
        port_plan(None, 32_999, 32_000).expect_err("empty range").describe(),
        "invalid configuration: wrapper.port.max (32000) is lower than wrapper.port.min (32999)"
    );
}

fn framed(packets: &[Packet]) -> Vec<u8> {
    let mut bytes = Vec::new();
    for packet in packets {
        packet.write_to(&mut bytes).expect("frame packet");
    }
    bytes
}

#[test]
fn unframeable_packets_are_refused_with_a_protocol_error() {
    let mut bytes = vec![1, 2];
    let packet = Packet { code: START, message: b"bad\0message".to_vec() };
    match packet.write_to(&mut bytes) {
        Err(Error::Protocol(message)) => {
            assert_eq!(message, "a packet payload cannot contain a NUL byte")
        }
        other => panic!("unexpected result: {other:?}"),
    }
    assert_eq!(bytes, [1, 2]);
    let large = Packet { code: START, message: vec![b'x'; 1_048_577] };
    match large.write_to(&mut bytes) {
        Err(Error::Protocol(message)) => assert_eq!(message, "packet larger than 1048576 bytes"),
        other => panic!("unexpected result: {other:?}"),
    }
}

#[test]
fn the_key_authenticates_and_keeps_the_packets_after_it() {
    let mut framer = Framer::default();
    let bytes = framed(&[Packet::text(KEY, "secret"), Packet::text(PING, "ping")]);
    match advance_handshake(&mut framer, false, HandshakeRead::Bytes(bytes), "secret") {
        HandshakeStep::Authenticated(rest) => assert_eq!(rest, vec![Packet::text(PING, "ping")]),
        other => panic!("unexpected step: {other:?}"),
    }
}

#[test]
fn a_wrong_key_is_rejected_and_a_partial_one_waits() {
    let mut framer = Framer::default();
    let bytes = framed(&[Packet::text(KEY, "guess")]);
    assert!(matches!(
        advance_handshake(&mut framer, false, HandshakeRead::Bytes(bytes), "secret"),
        HandshakeStep::Reject
    ));
    let mut framer = Framer::default();
    let bytes = framed(&[Packet::text(KEY, "secret")]);
    let (head, tail) = bytes.split_at(3);
    assert!(matches!(
        advance_handshake(&mut framer, false, HandshakeRead::Bytes(head.to_vec()), "secret"),
        HandshakeStep::Keep
    ));
    assert!(matches!(
        advance_handshake(&mut framer, false, HandshakeRead::Bytes(tail.to_vec()), "secret"),
        HandshakeStep::Authenticated(_)
    ));
}

#[test]
fn silent_closed_and_expired_connections_are_dropped() {
    let mut framer = Framer::default();
    assert!(matches!(
        advance_handshake(&mut framer, false, HandshakeRead::Pending, "secret"),
        HandshakeStep::Keep
    ));
    assert!(matches!(
        advance_handshake(&mut framer, false, HandshakeRead::Closed, "secret"),
        HandshakeStep::Drop
    ));
    assert!(matches!(
        advance_handshake(&mut framer, false, HandshakeRead::Failed, "secret"),
        HandshakeStep::Drop
    ));
    let bytes = framed(&[Packet::text(KEY, "secret")]);
    assert!(matches!(
        advance_handshake(&mut framer, true, HandshakeRead::Bytes(bytes), "secret"),
        HandshakeStep::Drop
    ));
}
