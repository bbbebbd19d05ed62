//! The message model of the tunnel: one versioned, tagged `Msg` per
//! datagram on the control channel, together with the socket-address
//! model carried inside payload frames.

use vstd::prelude::*;

verus! {

/// Protocol version carried by every frame; a peer receiving any other
/// version drops the frame.
pub const VERSION: u8 = 1;

/// Placeholder authenticator the client sends in its handshake request.
/// The server currently accepts every token.
pub const REQUEST_TOKEN: u32 = 0xdead_beef;

/// Size of every receive buffer, and the largest encoded frame accepted
/// on the wire: a datagram that fills a buffer is a protocol error.
pub const MAX_DATAGRAM: usize = 2048;

/// Seconds between keepalive frames sent by the client.
pub const KEEPALIVE_SECS: u64 = 25;

/// A socket address as it travels inside a `UdpPayload` frame: either an
/// IPv4 address (four octets and a port) or an IPv6 address (sixteen
/// octets, a port, a flow label and a scope id).  Octet `o0` is the
/// leftmost octet of the printed address.
#[derive(Clone, Copy, PartialEq, Eq, Structural, Debug)]
pub enum PeerAddr {
    V4 {
        o0: u8,
        o1: u8,
        o2: u8,
        o3: u8,
        port: u16,
    },
    V6 {
        o0: u8,
        o1: u8,
        o2: u8,
        o3: u8,
        o4: u8,
        o5: u8,
        o6: u8,
        o7: u8,
        o8: u8,
        o9: u8,
        o10: u8,
        o11: u8,
        o12: u8,
        o13: u8,
        o14: u8,
        o15: u8,
        port: u16,
        flowinfo: u32,
        scope_id: u32,
    },
}

/// Body of a handshake request: the server port the client asks to have
/// bound, and the (currently unvalidated) token.
#[derive(Clone, Copy, PartialEq, Eq, Structural, Debug)]
pub struct Request {
    pub port: u16,
    pub token: u32,
}

/// Server's answer to a handshake request.
#[derive(Clone, Copy, PartialEq, Eq, Structural, Debug)]
pub enum Response {
    Success,
    PortInUse,
}

/// The tagged command of a frame.
pub enum Command {
    /// A tunneled datagram: the external peer it came from or goes to,
    /// and its bytes.
    UdpPayload(PeerAddr, Vec<u8>),
    /// Client asks the server to bind a forwarding port.
    Request(Request),
    /// Server answers a request.
    Response(Response),
    /// Client keeps its NAT mapping alive.
    Keepalive,
}

/// One frame on the control channel: a version byte and a command.
pub struct Msg {
    pub version: u8,
    pub command: Command,
}

/// Mathematical image of a `Command`: the payload bytes become a `Seq`.
pub enum CommandView {
    UdpPayload(PeerAddr, Seq<u8>),
    Request(Request),
    Response(Response),
    Keepalive,
}

/// Mathematical image of a `Msg`.
pub struct MsgView {
    pub version: u8,
    pub command: CommandView,
}

impl View for Command {
    type V = CommandView;

    open spec fn view(&self) -> CommandView {
        match self {
            Command::UdpPayload(peer, bytes) => CommandView::UdpPayload(*peer, bytes@),
            Command::Request(req) => CommandView::Request(*req),
            Command::Response(resp) => CommandView::Response(*resp),
            Command::Keepalive => CommandView::Keepalive,
        }
    }
}

impl View for Msg {
    type V = MsgView;

    open spec fn view(&self) -> MsgView {
        MsgView { version: self.version, command: self.command@ }
    }
}

impl Msg {
    /// Wrap a command in a frame stamped with the current protocol version.
    pub fn new(command: Command) -> (m: Msg)
        ensures
            m@ == (MsgView { version: VERSION, command: command@ }),
    {
        Msg { version: VERSION, command }
    }
}

/// Frame carrying one tunneled datagram for external peer `peer`; both
/// the server's forward-socket reader and the client's peer-socket
/// readers produce exactly these.
pub fn tunnel_payload(peer: PeerAddr, data: Vec<u8>) -> (m: Msg)
    ensures
        m@ == (MsgView { version: VERSION, command: CommandView::UdpPayload(peer, data@) }),
{
    Msg::new(Command::UdpPayload(peer, data))
}

/// The frame the client's keepalive ticker enqueues every
/// `KEEPALIVE_SECS` seconds.
pub fn keepalive_msg() -> (m: Msg)
    ensures
        m@ == (MsgView { version: VERSION, command: CommandView::Keepalive }),
{
    Msg::new(Command::Keepalive)
}

} // verus!
