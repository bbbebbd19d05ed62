//! Behavioral tests of the frame codec: round trips for every command
//! and both address families, exact wire bytes, and the rejection of
//! malformed, foreign-version and oversized datagrams.

use udpt::codec::decode;
use udpt::codec::decode_datagram;
use udpt::codec::encode;
use udpt::msg::Command;
use udpt::msg::Msg;
use udpt::msg::PeerAddr;
use udpt::msg::Request;
use udpt::msg::Response;
use udpt::msg::MAX_DATAGRAM;

fn v4(o0: u8, o1: u8, o2: u8, o3: u8, port: u16) -> PeerAddr {
    PeerAddr::V4 { o0, o1, o2, o3, port }
}

fn sample_v6(port: u16) -> PeerAddr {
    PeerAddr::V6 {
        o0: 0x20, o1: 0x01, o2: 0x0d, o3: 0xb8,
        o4: 0, o5: 0, o6: 0, o7: 0,
        o8: 0, o9: 0, o10: 0, o11: 0,
        o12: 0, o13: 0, o14: 0, o15: 1,
        port,
        flowinfo: 7,
        scope_id: 3,
    }
}

fn round_trip(msg: Msg) -> Msg {
    let bytes = encode(&msg);
    assert!(bytes.len() < MAX_DATAGRAM);
    decode(&bytes).expect("a frame must decode to itself")
}

#[test]
fn round_trip_keepalive() {
    let out = round_trip(Msg::new(Command::Keepalive));
    assert_eq!(out.version, 1);
    assert!(matches!(out.command, Command::Keepalive));
}

#[test]
fn round_trip_request() {
    let out = round_trip(Msg::new(Command::Request(Request { port: 5000, token: 0xdead_beef })));
    match out.command {
        Command::Request(req) => {
            assert_eq!(req.port, 5000);
            assert_eq!(req.token, 0xdead_beef);
        }
        _ => panic!("wrong command"),
    }
}

#[test]
fn round_trip_response_success() {
    let out = round_trip(Msg::new(Command::Response(Response::Success)));
    assert!(matches!(out.command, Command::Response(Response::Success)));
}

#[test]
fn round_trip_response_port_in_use() {
    let out = round_trip(Msg::new(Command::Response(Response::PortInUse)));
    assert!(matches!(out.command, Command::Response(Response::PortInUse)));
}

fn round_trip_payload(peer: PeerAddr, payload: Vec<u8>) {
    let out = round_trip(Msg::new(Command::UdpPayload(peer, payload.clone())));
    match out.command {
        Command::UdpPayload(p, b) => {
            assert!(p == peer);
            assert_eq!(b, payload);
        }
        _ => panic!("wrong command"),
    }
}

#[test]
fn round_trip_payload_v4_empty() {
    round_trip_payload(v4(127, 0, 0, 1, 40001), Vec::new());
}

#[test]
fn round_trip_payload_v4_one_byte() {
    round_trip_payload(v4(10, 0, 0, 7, 5050), vec![0xab]);
}

#[test]
fn round_trip_payload_v4_1500_bytes() {
    let payload: Vec<u8> = (0..1500u32).map(|i| (i % 251) as u8).collect();
    round_trip_payload(v4(192, 168, 1, 2, 65535), payload);
}

#[test]
fn round_trip_payload_v6() {
    round_trip_payload(sample_v6(40002), vec![1, 2, 3, 4, 5]);
}

#[test]
fn exact_bytes_keepalive() {
    let bytes = encode(&Msg::new(Command::Keepalive));
    assert_eq!(bytes, vec![1, 3, 0, 0, 0]);
}

#[test]
fn exact_bytes_request() {
    let bytes = encode(&Msg::new(Command::Request(Request { port: 5000, token: 0xdead_beef })));
    assert_eq!(bytes, vec![1, 1, 0, 0, 0, 0x88, 0x13, 0xef, 0xbe, 0xad, 0xde]);
}

#[test]
fn exact_bytes_response_port_in_use() {
    let bytes = encode(&Msg::new(Command::Response(Response::PortInUse)));
    assert_eq!(bytes, vec![1, 2, 0, 0, 0, 1, 0, 0, 0]);
}

#[test]
fn exact_bytes_payload_v4() {
    let bytes = encode(&Msg::new(Command::UdpPayload(
        v4(127, 0, 0, 1, 40001),
        b"ping".to_vec(),
    )));
    assert_eq!(
        bytes,
        vec![
            1, // version
            0, 0, 0, 0, // command tag: payload
            0, 0, 0, 0, // address tag: V4
            127, 0, 0, 1, // octets
            0x41, 0x9c, // port 40001
            4, 0, 0, 0, 0, 0, 0, 0, // payload length
            b'p', b'i', b'n', b'g',
        ]
    );
}

#[test]
fn version_gate_rejects_other_versions() {
    let mut bytes = encode(&Msg::new(Command::Keepalive));
    bytes[0] = 2;
    assert!(decode(&bytes).is_none());
    bytes[0] = 0;
    assert!(decode(&bytes).is_none());
}

#[test]
fn truncated_frame_rejected() {
    let mut bytes = encode(&Msg::new(Command::Request(Request { port: 80, token: 1 })));
    bytes.pop();
    assert!(decode(&bytes).is_none());
}

#[test]
fn trailing_bytes_rejected() {
    let mut bytes = encode(&Msg::new(Command::Keepalive));
    bytes.push(0);
    assert!(decode(&bytes).is_none());
}

#[test]
fn payload_length_must_match() {
    let mut bytes = encode(&Msg::new(Command::UdpPayload(v4(1, 2, 3, 4, 9), vec![5, 6])));
    bytes.push(7);
    assert!(decode(&bytes).is_none());
}

#[test]
fn unknown_command_tag_rejected() {
    assert!(decode(&vec![1, 4, 0, 0, 0]).is_none());
}

#[test]
fn unknown_response_tag_rejected() {
    assert!(decode(&vec![1, 2, 0, 0, 0, 2, 0, 0, 0]).is_none());
}

#[test]
fn empty_datagram_rejected() {
    assert!(decode(&Vec::new()).is_none());
}

#[test]
fn oversize_datagram_dropped() {
    // A 3000-byte datagram offered to the receive path is dropped even
    // where its start looks like a frame.
    let mut bytes = encode(&Msg::new(Command::UdpPayload(
        v4(127, 0, 0, 1, 40001),
        vec![0; 2977],
    )));
    assert_eq!(bytes.len(), 3000);
    assert!(decode_datagram(&bytes).is_none());
    bytes.truncate(MAX_DATAGRAM);
    assert!(decode_datagram(&bytes).is_none());
}

#[test]
fn short_datagram_still_decoded() {
    let bytes = encode(&Msg::new(Command::Keepalive));
    let out = decode_datagram(&bytes).expect("short frames pass the receive path");
    assert!(matches!(out.command, Command::Keepalive));
}

#[test]
fn random_garbage_rejected() {
    // A deterministic stand-in for a random 64-byte datagram.
    let mut x: u32 = 0x12345678;
    let mut bytes = Vec::new();
    for _ in 0..64 {
        x = x.wrapping_mul(1103515245).wrapping_add(12345);
        bytes.push((x >> 16) as u8);
    }
    assert!(decode_datagram(&bytes).is_none());
}
