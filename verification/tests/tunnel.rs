//! Behavioral tests of the handshake, the server's session table, the
//! client's peer fan-out, and the end-to-end relay chain at the level
//! of frames.

use udpt::cli::run;
use udpt::cli::Args;
use udpt::cli::Commands;
use udpt::cli::Role;
use udpt::client::client_handle_msg;
use udpt::client::handshake_request;
use udpt::client::handshake_response;
use udpt::client::ClientAction;
use udpt::client::HandshakeOutcome;
use udpt::client::PeerTable;
use udpt::codec::decode_datagram;
use udpt::codec::encode;
use udpt::msg::keepalive_msg;
use udpt::msg::tunnel_payload;
use udpt::msg::Command;
use udpt::msg::Msg;
use udpt::msg::PeerAddr;
use udpt::msg::Request;
use udpt::msg::Response;
use udpt::server::handle_msg;
use udpt::server::handle_request_command;
use udpt::server::token_valid;
use udpt::server::ServerAction;
use udpt::server::Sessions;

fn v4(o0: u8, o1: u8, o2: u8, o3: u8, port: u16) -> PeerAddr {
    PeerAddr::V4 { o0, o1, o2, o3, port }
}

/// The client's control address as the server sees it.
fn client_addr() -> PeerAddr {
    v4(127, 0, 0, 1, 54321)
}

/// Open a session for `client` on `port`, asserting the happy path.
fn establish(sessions: &mut Sessions, client: PeerAddr, port: u16, now: u64) {
    let req = Msg::new(Command::Request(Request { port, token: 0xdead_beef }));
    match handle_msg(sessions, client, req, now) {
        ServerAction::TryBind { req: r } => assert_eq!(r.port, port),
        _ => panic!("a fresh request must ask for a bind"),
    }
    let reply = handle_request_command(sessions, client, Request { port, token: 0xdead_beef }, true, now);
    assert!(matches!(reply.command, Command::Response(Response::Success)));
}

#[test]
fn token_always_valid() {
    assert!(token_valid(0));
    assert!(token_valid(0xdead_beef));
}

#[test]
fn handshake_request_frame() {
    let bytes = encode(&handshake_request(5000));
    let msg = decode_datagram(&bytes).expect("the handshake request is a valid frame");
    assert_eq!(msg.version, 1);
    match msg.command {
        Command::Request(req) => {
            assert_eq!(req.port, 5000);
            assert_eq!(req.token, 0xdead_beef);
        }
        _ => panic!("wrong command"),
    }
}

#[test]
fn handshake_success_establishes() {
    let bytes = encode(&Msg::new(Command::Response(Response::Success)));
    assert_eq!(handshake_response(&bytes), HandshakeOutcome::Established);
}

#[test]
fn handshake_port_in_use_is_fatal() {
    let bytes = encode(&Msg::new(Command::Response(Response::PortInUse)));
    assert_eq!(handshake_response(&bytes), HandshakeOutcome::PortInUse);
}

#[test]
fn handshake_unexpected_frame_is_fatal() {
    let bytes = encode(&Msg::new(Command::Keepalive));
    assert_eq!(handshake_response(&bytes), HandshakeOutcome::Rejected);
    assert_eq!(handshake_response(&vec![0x55; 64]), HandshakeOutcome::Rejected);
    assert_eq!(handshake_response(&vec![1; 4000]), HandshakeOutcome::Rejected);
}

#[test]
fn server_happy_path_creates_session() {
    let mut sessions = Sessions::new();
    establish(&mut sessions, client_addr(), 5000, 100);
    let info = sessions.session(&client_addr()).expect("session must exist");
    assert_eq!(info.forwarding_port, 5000);
    assert_eq!(info.last_used, 100);
}

#[test]
fn port_in_use_creates_no_session() {
    let mut sessions = Sessions::new();
    let client = client_addr();
    let req = Request { port: 5000, token: 0xdead_beef };
    match handle_msg(&mut sessions, client, Msg::new(Command::Request(req)), 7) {
        ServerAction::TryBind { req: r } => assert_eq!(r.port, 5000),
        _ => panic!("a fresh request must ask for a bind"),
    }
    let reply = handle_request_command(&mut sessions, client, req, false, 7);
    assert!(matches!(reply.command, Command::Response(Response::PortInUse)));
    assert!(!sessions.contains(&client));
    // A second handshake from the same client for a free port succeeds.
    establish(&mut sessions, client, 6000, 8);
    assert_eq!(sessions.session(&client).unwrap().forwarding_port, 6000);
}

#[test]
fn unauthenticated_payload_dropped() {
    let mut sessions = Sessions::new();
    let msg = tunnel_payload(v4(8, 8, 8, 8, 53), b"probe".to_vec());
    match handle_msg(&mut sessions, client_addr(), msg, 1) {
        ServerAction::Discard => {}
        _ => panic!("payload from an unknown source must be dropped"),
    }
    assert!(!sessions.contains(&client_addr()));
}

#[test]
fn unauthenticated_keepalive_dropped() {
    let mut sessions = Sessions::new();
    match handle_msg(&mut sessions, client_addr(), keepalive_msg(), 1) {
        ServerAction::Discard => {}
        _ => panic!("keepalive from an unknown source must be dropped"),
    }
    assert!(!sessions.contains(&client_addr()));
}

#[test]
fn keepalive_refreshes_last_used() {
    let mut sessions = Sessions::new();
    establish(&mut sessions, client_addr(), 5000, 100);
    match handle_msg(&mut sessions, client_addr(), keepalive_msg(), 130) {
        ServerAction::Refresh => {}
        _ => panic!("keepalive from a session must refresh it"),
    }
    let info = sessions.session(&client_addr()).unwrap();
    assert_eq!(info.last_used, 130);
    assert_eq!(info.forwarding_port, 5000);
}

#[test]
fn payload_refreshes_last_used() {
    let mut sessions = Sessions::new();
    establish(&mut sessions, client_addr(), 5000, 100);
    let msg = tunnel_payload(v4(9, 9, 9, 9, 1234), vec![1]);
    match handle_msg(&mut sessions, client_addr(), msg, 142) {
        ServerAction::Forward { .. } => {}
        _ => panic!("payload from a session must be forwarded"),
    }
    assert_eq!(sessions.session(&client_addr()).unwrap().last_used, 142);
}

#[test]
fn response_from_client_dropped() {
    let mut sessions = Sessions::new();
    establish(&mut sessions, client_addr(), 5000, 1);
    let msg = Msg::new(Command::Response(Response::Success));
    assert!(matches!(handle_msg(&mut sessions, client_addr(), msg, 2), ServerAction::Discard));
}

#[test]
fn foreign_version_dropped_by_server() {
    let mut sessions = Sessions::new();
    let msg = Msg { version: 2, command: Command::Keepalive };
    assert!(matches!(handle_msg(&mut sessions, client_addr(), msg, 1), ServerAction::Discard));
    assert!(!sessions.contains(&client_addr()));
}

#[test]
fn duplicate_request_resends_success() {
    let mut sessions = Sessions::new();
    establish(&mut sessions, client_addr(), 5000, 10);
    let again = Msg::new(Command::Request(Request { port: 5000, token: 0xdead_beef }));
    match handle_msg(&mut sessions, client_addr(), again, 11) {
        ServerAction::Reply { reply } => {
            assert!(matches!(reply.command, Command::Response(Response::Success)));
        }
        _ => panic!("a repeated request must be answered again"),
    }
    assert_eq!(sessions.session(&client_addr()).unwrap().forwarding_port, 5000);
}

#[test]
fn client_binds_one_socket_per_peer() {
    let mut peers = PeerTable::new();
    let e1 = v4(127, 0, 0, 1, 40001);
    let e2 = v4(127, 0, 0, 1, 40002);
    match client_handle_msg(&mut peers, tunnel_payload(e1, b"one".to_vec())) {
        ClientAction::Forward { peer, payload, is_new } => {
            assert!(peer == e1);
            assert_eq!(payload, b"one".to_vec());
            assert!(is_new);
        }
        _ => panic!("payload frames must be forwarded"),
    }
    match client_handle_msg(&mut peers, tunnel_payload(e2, b"two".to_vec())) {
        ClientAction::Forward { peer, is_new, .. } => {
            assert!(peer == e2);
            assert!(is_new);
        }
        _ => panic!("payload frames must be forwarded"),
    }
    match client_handle_msg(&mut peers, tunnel_payload(e1, b"three".to_vec())) {
        ClientAction::Forward { peer, is_new, .. } => {
            assert!(peer == e1);
            assert!(!is_new, "a known peer must reuse its socket");
        }
        _ => panic!("payload frames must be forwarded"),
    }
    assert_eq!(peers.peer_count(), 2);
    assert!(peers.contains(&e1));
    assert!(peers.contains(&e2));
}

#[test]
fn client_ignores_non_payload_frames() {
    let mut peers = PeerTable::new();
    assert!(matches!(client_handle_msg(&mut peers, keepalive_msg()), ClientAction::Ignore));
    let resp = Msg::new(Command::Response(Response::Success));
    assert!(matches!(client_handle_msg(&mut peers, resp), ClientAction::Ignore));
    assert_eq!(peers.peer_count(), 0);
}

#[test]
fn round_trip_through_the_tunnel() {
    // External peer E sends "ping" to the server's forward socket; the
    // reply "pong" comes back to E.  Every step that moves bytes is the
    // real code; only the sockets are elided.
    let e = v4(127, 0, 0, 1, 40001);
    let c = client_addr();
    let mut sessions = Sessions::new();
    let mut peers = PeerTable::new();
    establish(&mut sessions, c, 5000, 0);

    // Server's forward reader wraps the datagram and it crosses the
    // control channel encoded.
    let wire = encode(&tunnel_payload(e, b"ping".to_vec()));
    let at_client = decode_datagram(&wire).expect("the tunnel frame must decode");
    match client_handle_msg(&mut peers, at_client) {
        ClientAction::Forward { peer, payload, is_new } => {
            assert!(peer == e);
            assert_eq!(payload, b"ping".to_vec(), "payload must arrive byte-identical");
            assert!(is_new);
        }
        _ => panic!("the tunneled datagram must reach the forward-to endpoint"),
    }

    // The local service answers "pong"; the client's peer reader wraps
    // it and the server forwards it to E.
    let wire_back = encode(&tunnel_payload(e, b"pong".to_vec()));
    let at_server = decode_datagram(&wire_back).expect("the return frame must decode");
    match handle_msg(&mut sessions, c, at_server, 1) {
        ServerAction::Forward { peer, payload } => {
            assert!(peer == e);
            assert_eq!(payload, b"pong".to_vec(), "reply must arrive byte-identical");
        }
        _ => panic!("the reply must be forwarded to the external peer"),
    }
}

#[test]
fn run_server_command() {
    let args = Args { command: Commands::Server { port: 4321 } };
    match run(args) {
        Role::Server { port, sessions } => {
            assert_eq!(port, 4321);
            assert!(!sessions.contains(&client_addr()));
        }
        _ => panic!("a server command must start a server"),
    }
}

#[test]
fn run_client_command() {
    let server = v4(127, 0, 0, 1, 4321);
    let local = v4(127, 0, 0, 1, 5050);
    let args = Args {
        command: Commands::Client {
            server_endpoint: server,
            server_forward_port: 5000,
            forward_to_endpoint: local,
        },
    };
    match run(args) {
        Role::Client { server_endpoint, forward_to_endpoint, handshake, peers } => {
            assert!(server_endpoint == server);
            assert!(forward_to_endpoint == local);
            assert_eq!(encode(&handshake), encode(&handshake_request(5000)));
            assert_eq!(peers.peer_count(), 0);
        }
        _ => panic!("a client command must start a client"),
    }
}

#[test]
fn keepalive_frame_on_the_wire() {
    assert_eq!(encode(&keepalive_msg()), vec![1, 3, 0, 0, 0]);
}
