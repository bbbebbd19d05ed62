//! Client side of the tunnel: the handshake and the per-peer fan-out.
//!
//! After the handshake the client receives tunneled payload frames on
//! its control socket.  Each distinct external peer address gets its own
//! local socket, so that the local service sees one source per peer;
//! `client_handle_msg` decides, for each frame, whether a new peer
//! socket must be bound and where the payload goes.  The table of known
//! peers is a set with no duplicate addresses.

use vstd::prelude::*;

use crate::codec::decode_datagram;
use crate::codec::spec_decode;
use crate::msg::Command;
use crate::msg::CommandView;
use crate::msg::Msg;
use crate::msg::MsgView;
use crate::msg::PeerAddr;
use crate::msg::Request;
use crate::msg::Response;
use crate::msg::MAX_DATAGRAM;
use crate::msg::REQUEST_TOKEN;
use crate::msg::VERSION;

verus! {

broadcast use vstd::set::group_set_axioms;

/// The finite set described by a list of addresses.
pub open spec fn set_of(s: Seq<PeerAddr>) -> Set<PeerAddr>
    decreases s.len(),
{
    if s.len() == 0 {
        Set::empty()
    } else {
        set_of(s.drop_last()).insert(s.last())
    }
}

/// Addresses of `s` are pairwise distinct.
pub open spec fn unique_addrs(s: Seq<PeerAddr>) -> bool {
    forall|i: int, j: int| 0 <= i < j < s.len() ==> s[i] != s[j]
}

proof fn lemma_set_of_contains(s: Seq<PeerAddr>, p: PeerAddr)
    ensures
        set_of(s).contains(p) <==> exists|i: int| 0 <= i < s.len() && s[i] == p,
    decreases s.len(),
{
    if s.len() > 0 {
        let t = s.drop_last();
        lemma_set_of_contains(t, p);
        assert(forall|i: int| 0 <= i < t.len() ==> t[i] == s[i]);
        if exists|i: int| 0 <= i < s.len() && s[i] == p {
            let i = choose|i: int| 0 <= i < s.len() && s[i] == p;
            if i < s.len() - 1 {
                assert(t[i] == p);
            } else {
                assert(s.last() == p);
            }
        }
        if set_of(s).contains(p) && s.last() != p {
            let i = choose|i: int| 0 <= i < t.len() && t[i] == p;
            assert(s[i] == p);
        }
    }
}

proof fn lemma_set_of_finite(s: Seq<PeerAddr>)
    ensures
        set_of(s).finite(),
    decreases s.len(),
{
    if s.len() > 0 {
        lemma_set_of_finite(s.drop_last());
    }
}

proof fn lemma_set_of_len(s: Seq<PeerAddr>)
    requires
        unique_addrs(s),
    ensures
        set_of(s).len() == s.len(),
    decreases s.len(),
{
    if s.len() > 0 {
        let t = s.drop_last();
        assert(forall|i: int| 0 <= i < t.len() ==> t[i] == s[i]);
        assert(unique_addrs(t));
        lemma_set_of_len(t);
        lemma_set_of_finite(t);
        lemma_set_of_contains(t, s.last());
        assert(!set_of(t).contains(s.last()));
    }
}

proof fn lemma_set_of_push(s: Seq<PeerAddr>, p: PeerAddr)
    ensures
        set_of(s.push(p)) == set_of(s).insert(p),
{
    assert(s.push(p).drop_last() =~= s);
    assert(s.push(p).last() == p);
}

/// The client's table of known external peers, one entry per distinct
/// peer address.  Viewed as the set of addresses; the sockets bound for
/// them live with the I/O code, one per entry.
pub struct PeerTable {
    peers: Vec<PeerAddr>,
}

impl View for PeerTable {
    type V = Set<PeerAddr>;

    closed spec fn view(&self) -> Set<PeerAddr> {
        set_of(self.peers@)
    }
}

impl PeerTable {
    /// One entry per peer address.
    pub closed spec fn wf(&self) -> bool {
        unique_addrs(self.peers@)
    }

    /// The empty table the client starts with.
    pub fn new() -> (t: PeerTable)
        ensures
            t.wf(),
            t@ == Set::<PeerAddr>::empty(),
    {
        PeerTable { peers: Vec::new() }
    }

    fn find(&self, p: &PeerAddr) -> (r: Option<usize>)
        ensures
            match r {
                Some(i) => 0 <= i < self.peers@.len() && self.peers@[i as int] == *p,
                None => forall|i: int| 0 <= i < self.peers@.len() ==> self.peers@[i] != *p,
            },
    {
        let mut i: usize = 0;
        while i < self.peers.len()
            invariant
                i <= self.peers@.len(),
                forall|j: int| 0 <= j < i ==> self.peers@[j] != *p,
            decreases self.peers@.len() - i,
        {
            if self.peers[i] == *p {
                return Some(i);
            }
            i = i + 1;
        }
        None
    }

    /// Whether a peer socket exists for this address.
    pub fn contains(&self, p: &PeerAddr) -> (r: bool)
        ensures
            r == self@.contains(*p),
    {
        proof {
            lemma_set_of_contains(self.peers@, *p);
        }
        match self.find(p) {
            Some(_) => true,
            None => false,
        }
    }

    /// How many distinct peers have a socket: exactly one per address.
    pub fn peer_count(&self) -> (n: usize)
        requires
            self.wf(),
        ensures
            n == self@.len(),
    {
        proof {
            lemma_set_of_len(self.peers@);
        }
        self.peers.len()
    }
}

/// What the I/O code around the client's control reader must do with a
/// frame.
pub enum ClientAction {
    /// Send `payload` from `peer`'s local socket to the forward-to
    /// endpoint; if `is_new`, first bind that socket and start its
    /// reader loop.
    Forward { peer: PeerAddr, payload: Vec<u8>, is_new: bool },
    /// Any other frame from the server: log it and carry on.
    Ignore,
}

/// Decide what to do with one decoded frame from the server.
///
/// A payload frame names the external peer it came from; the peer is
/// added to the table if it is new, and its bytes go to the forward-to
/// endpoint unchanged.  Every other frame (and any frame of a foreign
/// version) leaves the table as it is.
pub fn client_handle_msg(table: &mut PeerTable, msg: Msg) -> (action: ClientAction)
    requires
        old(table).wf(),
    ensures
        final(table).wf(),
        msg@.version != VERSION ==> action is Ignore && final(table)@ == old(table)@,
        msg@.version == VERSION ==> match msg@.command {
            CommandView::UdpPayload(src, data) => (action matches ClientAction::Forward {
                peer,
                payload,
                is_new,
            } && peer == src && payload@ == data && is_new == !old(table)@.contains(src)
                && final(table)@ == old(table)@.insert(src)),
            _ => action is Ignore && final(table)@ == old(table)@,
        },
{
    if msg.version != VERSION {
        return ClientAction::Ignore;
    }
    match msg.command {
        Command::UdpPayload(src, payload) => {
            proof {
                lemma_set_of_contains(table.peers@, src);
            }
            match table.find(&src) {
                Some(_) => {
                    proof {
                        assert(old(table)@.insert(src) =~= old(table)@);
                    }
                    ClientAction::Forward { peer: src, payload, is_new: false }
                }
                None => {
                    let ghost s0 = table.peers@;
                    table.peers.push(src);
                    proof {
                        assert(forall|a: int| 0 <= a < s0.len() ==> table.peers@[a] == s0[a]);
                        assert(unique_addrs(table.peers@));
                        lemma_set_of_push(s0, src);
                    }
                    ClientAction::Forward { peer: src, payload, is_new: true }
                }
            }
        }
        _ => ClientAction::Ignore,
    }
}

/// Outcome of the client handshake, as decided from the server's first
/// reply.
#[derive(Clone, Copy, PartialEq, Eq, Structural, Debug)]
pub enum HandshakeOutcome {
    /// `Success`: the port is open, enter the main loop.
    Established,
    /// `PortInUse`: fatal, the requested port is taken.
    PortInUse,
    /// Anything else on the wire: fatal handshake failure.
    Rejected,
}

/// The single frame the client sends to open the tunnel.
pub fn handshake_request(server_forward_port: u16) -> (m: Msg)
    ensures
        m@ == (MsgView {
            version: VERSION,
            command: CommandView::Request((Request {
                port: server_forward_port,
                token: REQUEST_TOKEN,
            })),
        }),
{
    Msg::new(Command::Request(Request { port: server_forward_port, token: REQUEST_TOKEN }))
}

/// The handshake outcome a datagram decides.
pub open spec fn spec_handshake_outcome(r: Option<MsgView>) -> HandshakeOutcome {
    match r {
        Some(m) => match m.command {
            CommandView::Response(Response::Success) => HandshakeOutcome::Established,
            CommandView::Response(Response::PortInUse) => HandshakeOutcome::PortInUse,
            _ => HandshakeOutcome::Rejected,
        },
        None => HandshakeOutcome::Rejected,
    }
}

/// Classify the server's reply to the handshake request.  Only a
/// well-formed `Success` response lets the client proceed; `PortInUse`
/// and everything else (malformed, oversized, or an unexpected command)
/// are fatal.
pub fn handshake_response(buf: &Vec<u8>) -> (r: HandshakeOutcome)
    ensures
        buf@.len() >= MAX_DATAGRAM ==> r == HandshakeOutcome::Rejected,
        buf@.len() < MAX_DATAGRAM ==> r == spec_handshake_outcome(spec_decode(buf@)),
{
    match decode_datagram(buf) {
        Some(m) => match m.command {
            Command::Response(Response::Success) => HandshakeOutcome::Established,
            Command::Response(Response::PortInUse) => HandshakeOutcome::PortInUse,
            _ => HandshakeOutcome::Rejected,
        },
        None => HandshakeOutcome::Rejected,
    }
}

} // verus!
