//! The frame codec: a fixed-width little-endian binary encoding of
//! `Msg`, identical on both ends of the tunnel.
//!
//! Layout of an encoded frame:
//! - `version: u8`
//! - `command tag: u32` (`0` payload, `1` request, `2` response, `3` keepalive)
//! - command body:
//!   - payload: address tag `u32` (`0` V4, `1` V6), the address body
//!     (V4: four octets, `port: u16`; V6: sixteen octets, `port: u16`,
//!     `flowinfo: u32`, `scope_id: u32`), then `length: u64` and
//!     `length` payload bytes;
//!   - request: `port: u16`, `token: u32`;
//!   - response: variant tag `u32` (`0` success, `1` port in use);
//!   - keepalive: empty.
//!
//! The codec is pure: malformed bytes decode to `None` and the caller
//! drops the datagram.

use vstd::prelude::*;

use crate::msg::Command;
use crate::msg::CommandView;
use crate::msg::Msg;
use crate::msg::MsgView;
use crate::msg::PeerAddr;
use crate::msg::Request;
use crate::msg::Response;
use crate::msg::MAX_DATAGRAM;
use crate::msg::VERSION;

verus! {

/// Little-endian bytes of a `u16`.
pub open spec fn u16_le(x: u16) -> Seq<u8> {
    seq![(x & 0xff) as u8, ((x >> 8) & 0xff) as u8]
}

/// Little-endian bytes of a `u32`.
pub open spec fn u32_le(x: u32) -> Seq<u8> {
    seq![
        (x & 0xff) as u8,
        ((x >> 8) & 0xff) as u8,
        ((x >> 16) & 0xff) as u8,
        ((x >> 24) & 0xff) as u8,
    ]
}

/// Little-endian bytes of a `u64`.
pub open spec fn u64_le(x: u64) -> Seq<u8> {
    seq![
        (x & 0xff) as u8,
        ((x >> 8) & 0xff) as u8,
        ((x >> 16) & 0xff) as u8,
        ((x >> 24) & 0xff) as u8,
        ((x >> 32) & 0xff) as u8,
        ((x >> 40) & 0xff) as u8,
        ((x >> 48) & 0xff) as u8,
        ((x >> 56) & 0xff) as u8,
    ]
}

/// The `u16` whose little-endian bytes are `b0, b1`.
pub open spec fn u16_from_le(b0: u8, b1: u8) -> u16 {
    (b0 as u16) | ((b1 as u16) << 8)
}

/// The `u32` whose little-endian bytes are `b0 .. b3`.
pub open spec fn u32_from_le(b0: u8, b1: u8, b2: u8, b3: u8) -> u32 {
    (b0 as u32) | ((b1 as u32) << 8) | ((b2 as u32) << 16) | ((b3 as u32) << 24)
}

/// The `u64` whose little-endian bytes are `b0 .. b7`.
pub open spec fn u64_from_le(b0: u8, b1: u8, b2: u8, b3: u8, b4: u8, b5: u8, b6: u8, b7: u8) -> u64 {
    (b0 as u64) | ((b1 as u64) << 8) | ((b2 as u64) << 16) | ((b3 as u64) << 24)
        | ((b4 as u64) << 32) | ((b5 as u64) << 40) | ((b6 as u64) << 48) | ((b7 as u64) << 56)
}

proof fn lemma_u16_le_inverse(x: u16)
    ensures
        u16_from_le(u16_le(x)[0], u16_le(x)[1]) == x,
{
    assert((((x & 0xff) as u8) as u16) | (((((x >> 8) & 0xff) as u8) as u16) << 8) == x)
        by (bit_vector);
}

proof fn lemma_u32_le_inverse(x: u32)
    ensures
        u32_from_le(u32_le(x)[0], u32_le(x)[1], u32_le(x)[2], u32_le(x)[3]) == x,
{
    assert((((x & 0xff) as u8) as u32)
        | (((((x >> 8) & 0xff) as u8) as u32) << 8)
        | (((((x >> 16) & 0xff) as u8) as u32) << 16)
        | (((((x >> 24) & 0xff) as u8) as u32) << 24) == x) by (bit_vector);
}

proof fn lemma_u64_le_inverse(x: u64)
    ensures
        u64_from_le(
            u64_le(x)[0], u64_le(x)[1], u64_le(x)[2], u64_le(x)[3],
            u64_le(x)[4], u64_le(x)[5], u64_le(x)[6], u64_le(x)[7],
        ) == x,
{
    assert((((x & 0xff) as u8) as u64)
        | (((((x >> 8) & 0xff) as u8) as u64) << 8)
        | (((((x >> 16) & 0xff) as u8) as u64) << 16)
        | (((((x >> 24) & 0xff) as u8) as u64) << 24)
        | (((((x >> 32) & 0xff) as u8) as u64) << 32)
        | (((((x >> 40) & 0xff) as u8) as u64) << 40)
        | (((((x >> 48) & 0xff) as u8) as u64) << 48)
        | (((((x >> 56) & 0xff) as u8) as u64) << 56) == x) by (bit_vector);
}

/// Encoding of a socket address inside a payload frame.
pub open spec fn spec_encode_addr(a: PeerAddr) -> Seq<u8> {
    match a {
        PeerAddr::V4 { o0, o1, o2, o3, port } => u32_le(0) + seq![o0, o1, o2, o3] + u16_le(port),
        PeerAddr::V6 {
            o0, o1, o2, o3, o4, o5, o6, o7, o8, o9, o10, o11, o12, o13, o14, o15,
            port, flowinfo, scope_id,
        } => u32_le(1)
            + seq![o0, o1, o2, o3, o4, o5, o6, o7, o8, o9, o10, o11, o12, o13, o14, o15]
            + u16_le(port) + u32_le(flowinfo) + u32_le(scope_id),
    }
}

/// Encoding of a command: its tag, then its body.
pub open spec fn spec_encode_command(c: CommandView) -> Seq<u8> {
    match c {
        CommandView::UdpPayload(peer, bytes) =>
            u32_le(0) + spec_encode_addr(peer) + u64_le(bytes.len() as u64) + bytes,
        CommandView::Request(req) => u32_le(1) + u16_le(req.port) + u32_le(req.token),
        CommandView::Response(Response::Success) => u32_le(2) + u32_le(0),
        CommandView::Response(Response::PortInUse) => u32_le(2) + u32_le(1),
        CommandView::Keepalive => u32_le(3),
    }
}

/// Encoding of a whole frame: the version byte, then the command.
pub open spec fn spec_encode(m: MsgView) -> Seq<u8> {
    seq![m.version] + spec_encode_command(m.command)
}

/// Decoding of a command body `s` (the bytes after the command tag).
/// Yields `None` unless `s` is exactly one well-formed body for `tag`.
pub open spec fn spec_decode_command(tag: u32, s: Seq<u8>) -> Option<CommandView> {
    if tag == 0 {
        if s.len() < 4 {
            None
        } else {
            let atag = u32_from_le(s[0], s[1], s[2], s[3]);
            if atag == 0 {
                if s.len() < 18 {
                    None
                } else {
                    let plen = u64_from_le(s[10], s[11], s[12], s[13], s[14], s[15], s[16], s[17]);
                    if s.len() == 18 + plen {
                        Some(CommandView::UdpPayload(
                            PeerAddr::V4 {
                                o0: s[4], o1: s[5], o2: s[6], o3: s[7],
                                port: u16_from_le(s[8], s[9]),
                            },
                            s.skip(18),
                        ))
                    } else {
                        None
                    }
                }
            } else if atag == 1 {
                if s.len() < 38 {
                    None
                } else {
                    let plen = u64_from_le(s[30], s[31], s[32], s[33], s[34], s[35], s[36], s[37]);
                    if s.len() == 38 + plen {
                        Some(CommandView::UdpPayload(
                            PeerAddr::V6 {
                                o0: s[4], o1: s[5], o2: s[6], o3: s[7],
                                o4: s[8], o5: s[9], o6: s[10], o7: s[11],
                                o8: s[12], o9: s[13], o10: s[14], o11: s[15],
                                o12: s[16], o13: s[17], o14: s[18], o15: s[19],
                                port: u16_from_le(s[20], s[21]),
                                flowinfo: u32_from_le(s[22], s[23], s[24], s[25]),
                                scope_id: u32_from_le(s[26], s[27], s[28], s[29]),
                            },
                            s.skip(38),
                        ))
                    } else {
                        None
                    }
                }
            } else {
                None
            }
        }
    } else if tag == 1 {
        if s.len() == 6 {
            Some(CommandView::Request(Request {
                port: u16_from_le(s[0], s[1]),
                token: u32_from_le(s[2], s[3], s[4], s[5]),
            }))
        } else {
            None
        }
    } else if tag == 2 {
        if s.len() == 4 {
            let rtag = u32_from_le(s[0], s[1], s[2], s[3]);
            if rtag == 0 {
                Some(CommandView::Response(Response::Success))
            } else if rtag == 1 {
                Some(CommandView::Response(Response::PortInUse))
            } else {
                None
            }
        } else {
            None
        }
    } else if tag == 3 {
        if s.len() == 0 {
            Some(CommandView::Keepalive)
        } else {
            None
        }
    } else {
        None
    }
}

/// Decoding of a whole datagram.  Yields `None` on anything but an
/// exact, current-version frame; in particular every datagram whose
/// first byte is not the protocol version is refused here, so no such
/// frame ever reaches the session layer.
pub open spec fn spec_decode(s: Seq<u8>) -> Option<MsgView> {
    if s.len() < 5 {
        None
    } else if s[0] != VERSION {
        None
    } else {
        match spec_decode_command(u32_from_le(s[1], s[2], s[3], s[4]), s.skip(5)) {
            Some(c) => Some(MsgView { version: s[0], command: c }),
            None => None,
        }
    }
}

/// A datagram whose first byte is not the protocol version never
/// decodes, so it is never delivered to the session layer.
pub proof fn lemma_version_gate(s: Seq<u8>)
    requires
        s.len() == 0 || s[0] != VERSION,
    ensures
        spec_decode(s) is None,
{
}

fn push_u16_le(out: &mut Vec<u8>, x: u16)
    ensures
        final(out)@ == old(out)@ + u16_le(x),
{
    out.push((x & 0xff) as u8);
    out.push(((x >> 8) & 0xff) as u8);
    proof {
        assert(out@ =~= old(out)@ + u16_le(x));
    }
}

fn push_u32_le(out: &mut Vec<u8>, x: u32)
    ensures
        final(out)@ == old(out)@ + u32_le(x),
{
    out.push((x & 0xff) as u8);
    out.push(((x >> 8) & 0xff) as u8);
    out.push(((x >> 16) & 0xff) as u8);
    out.push(((x >> 24) & 0xff) as u8);
    proof {
        assert(out@ =~= old(out)@ + u32_le(x));
    }
}

fn push_u64_le(out: &mut Vec<u8>, x: u64)
    ensures
        final(out)@ == old(out)@ + u64_le(x),
{
    out.push((x & 0xff) as u8);
    out.push(((x >> 8) & 0xff) as u8);
    out.push(((x >> 16) & 0xff) as u8);
    out.push(((x >> 24) & 0xff) as u8);
    out.push(((x >> 32) & 0xff) as u8);
    out.push(((x >> 40) & 0xff) as u8);
    out.push(((x >> 48) & 0xff) as u8);
    out.push(((x >> 56) & 0xff) as u8);
    proof {
        assert(out@ =~= old(out)@ + u64_le(x));
    }
}

fn encode_addr(out: &mut Vec<u8>, a: &PeerAddr)
    ensures
        final(out)@ == old(out)@ + spec_encode_addr(*a),
{
    match *a {
        PeerAddr::V4 { o0, o1, o2, o3, port } => {
            push_u32_le(out, 0);
            out.push(o0);
            out.push(o1);
            out.push(o2);
            out.push(o3);
            push_u16_le(out, port);
            proof {
                assert(out@ =~= old(out)@ + spec_encode_addr(*a));
            }
        }
        PeerAddr::V6 {
            o0, o1, o2, o3, o4, o5, o6, o7, o8, o9, o10, o11, o12, o13, o14, o15,
            port, flowinfo, scope_id,
        } => {
            push_u32_le(out, 1);
            out.push(o0);
            out.push(o1);
            out.push(o2);
            out.push(o3);
            out.push(o4);
            out.push(o5);
            out.push(o6);
            out.push(o7);
            out.push(o8);
            out.push(o9);
            out.push(o10);
            out.push(o11);
            out.push(o12);
            out.push(o13);
            out.push(o14);
            out.push(o15);
            push_u16_le(out, port);
            push_u32_le(out, flowinfo);
            push_u32_le(out, scope_id);
            proof {
                assert(out@ =~= old(out)@ + spec_encode_addr(*a));
            }
        }
    }
}

/// Encode a frame into the bytes that go on the wire.
pub fn encode(m: &Msg) -> (r: Vec<u8>)
    ensures
        r@ == spec_encode(m@),
{
    let mut out: Vec<u8> = Vec::new();
    out.push(m.version);
    match &m.command {
        Command::UdpPayload(peer, bytes) => {
            push_u32_le(&mut out, 0);
            encode_addr(&mut out, peer);
            push_u64_le(&mut out, bytes.len() as u64);
            let ghost head = out@;
            let mut i: usize = 0;
            while i < bytes.len()
                invariant
                    i <= bytes@.len(),
                    out@ == head + bytes@.subrange(0, i as int),
                decreases bytes@.len() - i,
            {
                out.push(bytes[i]);
                i = i + 1;
                proof {
                    assert(out@ =~= head + bytes@.subrange(0, i as int));
                }
            }
            proof {
                assert(bytes@.subrange(0, bytes@.len() as int) =~= bytes@);
                assert(out@ =~= spec_encode(m@));
            }
        }
        Command::Request(req) => {
            push_u32_le(&mut out, 1);
            push_u16_le(&mut out, req.port);
            push_u32_le(&mut out, req.token);
            proof {
                assert(out@ =~= spec_encode(m@));
            }
        }
        Command::Response(resp) => {
            push_u32_le(&mut out, 2);
            match resp {
                Response::Success => push_u32_le(&mut out, 0),
                Response::PortInUse => push_u32_le(&mut out, 1),
            }
            proof {
                assert(out@ =~= spec_encode(m@));
            }
        }
        Command::Keepalive => {
            push_u32_le(&mut out, 3);
            proof {
                assert(out@ =~= spec_encode(m@));
            }
        }
    }
    out
}

fn read_u16_le(b: &Vec<u8>, i: usize) -> (x: u16)
    requires
        i + 2 <= b@.len(),
    ensures
        x == u16_from_le(b@[i as int], b@[i + 1]),
{
    let n = b.len();
    proof {
        assert(i + 2 <= n);
    }
    (b[i] as u16) | ((b[i + 1] as u16) << 8)
}

fn read_u32_le(b: &Vec<u8>, i: usize) -> (x: u32)
    requires
        i + 4 <= b@.len(),
    ensures
        x == u32_from_le(b@[i as int], b@[i + 1], b@[i + 2], b@[i + 3]),
{
    let n = b.len();
    proof {
        assert(i + 4 <= n);
    }
    (b[i] as u32) | ((b[i + 1] as u32) << 8) | ((b[i + 2] as u32) << 16)
        | ((b[i + 3] as u32) << 24)
}

fn read_u64_le(b: &Vec<u8>, i: usize) -> (x: u64)
    requires
        i + 8 <= b@.len(),
    ensures
        x == u64_from_le(
            b@[i as int], b@[i + 1], b@[i + 2], b@[i + 3],
            b@[i + 4], b@[i + 5], b@[i + 6], b@[i + 7],
        ),
{
    let n = b.len();
    proof {
        assert(i + 8 <= n);
    }
    (b[i] as u64) | ((b[i + 1] as u64) << 8) | ((b[i + 2] as u64) << 16)
        | ((b[i + 3] as u64) << 24) | ((b[i + 4] as u64) << 32) | ((b[i + 5] as u64) << 40)
        | ((b[i + 6] as u64) << 48) | ((b[i + 7] as u64) << 56)
}

fn copy_tail(buf: &Vec<u8>, from: usize) -> (r: Vec<u8>)
    requires
        from <= buf@.len(),
    ensures
        r@ == buf@.subrange(from as int, buf@.len() as int),
{
    let mut out: Vec<u8> = Vec::new();
    let mut i: usize = from;
    while i < buf.len()
        invariant
            from <= i <= buf@.len(),
            out@ == buf@.subrange(from as int, i as int),
        decreases buf@.len() - i,
    {
        out.push(buf[i]);
        i = i + 1;
        proof {
            assert(out@ =~= buf@.subrange(from as int, i as int));
        }
    }
    out
}

/// Decode one datagram into a frame.  Succeeds exactly where the
/// mathematical decoder does, and returns the same frame.
pub fn decode(buf: &Vec<u8>) -> (r: Option<Msg>)
    ensures
        match r {
            Some(m) => spec_decode(buf@) == Some(m@),
            None => spec_decode(buf@) is None,
        },
{
    if buf.len() < 5 {
        return None;
    }
    if buf[0] != VERSION {
        return None;
    }
    let tag = read_u32_le(buf, 1);
    if tag == 0 {
        if buf.len() < 9 {
            return None;
        }
        let atag = read_u32_le(buf, 5);
        if atag == 0 {
            if buf.len() < 23 {
                return None;
            }
            let plen = read_u64_le(buf, 15);
            let rem = buf.len() - 23;
            if rem as u64 != plen {
                return None;
            }
            let port = read_u16_le(buf, 13);
            let peer = PeerAddr::V4 { o0: buf[9], o1: buf[10], o2: buf[11], o3: buf[12], port };
            let payload = copy_tail(buf, 23);
            let m = Msg { version: VERSION, command: Command::UdpPayload(peer, payload) };
            proof {
                assert(buf@.skip(5).skip(18) =~= buf@.subrange(23, buf@.len() as int));
                assert(spec_decode(buf@) == Some(m@));
            }
            Some(m)
        } else if atag == 1 {
            if buf.len() < 43 {
                return None;
            }
            let plen = read_u64_le(buf, 35);
            let rem = buf.len() - 43;
            if rem as u64 != plen {
                return None;
            }
            let port = read_u16_le(buf, 25);
            let flowinfo = read_u32_le(buf, 27);
            let scope_id = read_u32_le(buf, 31);
            let peer = PeerAddr::V6 {
                o0: buf[9], o1: buf[10], o2: buf[11], o3: buf[12],
                o4: buf[13], o5: buf[14], o6: buf[15], o7: buf[16],
                o8: buf[17], o9: buf[18], o10: buf[19], o11: buf[20],
                o12: buf[21], o13: buf[22], o14: buf[23], o15: buf[24],
                port, flowinfo, scope_id,
            };
            let payload = copy_tail(buf, 43);
            let m = Msg { version: VERSION, command: Command::UdpPayload(peer, payload) };
            proof {
                assert(buf@.skip(5).skip(38) =~= buf@.subrange(43, buf@.len() as int));
                assert(spec_decode(buf@) == Some(m@));
            }
            Some(m)
        } else {
            None
        }
    } else if tag == 1 {
        if buf.len() != 11 {
            return None;
        }
        let port = read_u16_le(buf, 5);
        let token = read_u32_le(buf, 7);
        Some(Msg { version: VERSION, command: Command::Request(Request { port, token }) })
    } else if tag == 2 {
        if buf.len() != 9 {
            return None;
        }
        let rtag = read_u32_le(buf, 5);
        if rtag == 0 {
            Some(Msg { version: VERSION, command: Command::Response(Response::Success) })
        } else if rtag == 1 {
            Some(Msg { version: VERSION, command: Command::Response(Response::PortInUse) })
        } else {
            None
        }
    } else if tag == 3 {
        if buf.len() != 5 {
            return None;
        }
        Some(Msg { version: VERSION, command: Command::Keepalive })
    } else {
        None
    }
}

/// The receive path of both peers: a datagram that fills a receive
/// buffer (`MAX_DATAGRAM` bytes or more) is a protocol error and is
/// dropped before decoding; anything shorter is decoded.
pub fn decode_datagram(buf: &Vec<u8>) -> (r: Option<Msg>)
    ensures
        buf@.len() >= MAX_DATAGRAM ==> r is None,
        buf@.len() < MAX_DATAGRAM ==> match r {
            Some(m) => spec_decode(buf@) == Some(m@),
            None => spec_decode(buf@) is None,
        },
{
    if buf.len() >= MAX_DATAGRAM {
        None
    } else {
        decode(buf)
    }
}

/// Codec round trip: decoding the encoding of any current-version frame
/// gives that frame back, for every command and both address families.
#[verifier::rlimit(100)]
pub proof fn lemma_codec_round_trip(m: MsgView)
    requires
        m.version == VERSION,
        m.command matches CommandView::UdpPayload(_, bytes) ==> bytes.len() <= u64::MAX,
    ensures
        spec_decode(spec_encode(m)) == Some(m),
{
    let e = spec_encode(m);
    match m.command {
        CommandView::UdpPayload(peer, bytes) => {
            let plen = bytes.len() as u64;
            lemma_u32_le_inverse(0);
            lemma_u64_le_inverse(plen);
            match peer {
                PeerAddr::V4 { o0, o1, o2, o3, port } => {
                    lemma_u16_le_inverse(port);
                    assert(e.skip(5) =~= u32_le(0) + seq![o0, o1, o2, o3] + u16_le(port)
                        + u64_le(plen) + bytes);
                    assert(e.skip(5).skip(18) =~= bytes);
                    assert(spec_decode(e) == Some(m));
                }
                PeerAddr::V6 {
                    o0, o1, o2, o3, o4, o5, o6, o7, o8, o9, o10, o11, o12, o13, o14, o15,
                    port, flowinfo, scope_id,
                } => {
                    lemma_u32_le_inverse(1);
                    lemma_u16_le_inverse(port);
                    lemma_u32_le_inverse(flowinfo);
                    lemma_u32_le_inverse(scope_id);
                    assert(e.skip(5) =~= u32_le(1)
                        + seq![o0, o1, o2, o3, o4, o5, o6, o7, o8, o9, o10, o11, o12, o13, o14, o15]
                        + u16_le(port) + u32_le(flowinfo) + u32_le(scope_id)
                        + u64_le(plen) + bytes);
                    assert(e.skip(5).skip(38) =~= bytes);
                    assert(spec_decode(e) == Some(m));
                }
            }
        }
        CommandView::Request(req) => {
            lemma_u32_le_inverse(1);
            lemma_u16_le_inverse(req.port);
            lemma_u32_le_inverse(req.token);
            assert(e.skip(5) =~= u16_le(req.port) + u32_le(req.token));
            assert(spec_decode(e) == Some(m));
        }
        CommandView::Response(resp) => {
            lemma_u32_le_inverse(2);
            match resp {
                Response::Success => {
                    lemma_u32_le_inverse(0);
                    assert(e.skip(5) =~= u32_le(0));
                }
                Response::PortInUse => {
                    lemma_u32_le_inverse(1);
                    assert(e.skip(5) =~= u32_le(1));
                }
            }
            assert(spec_decode(e) == Some(m));
        }
        CommandView::Keepalive => {
            lemma_u32_le_inverse(3);
            assert(e.skip(5) =~= Seq::<u8>::empty());
            assert(spec_decode(e) == Some(m));
        }
    }
}

} // verus!
