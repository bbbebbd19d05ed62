//! Server side of the tunnel: the session table and the dispatch of
//! decoded frames.
//!
//! The server owns one control socket.  Each frame arriving there is
//! decoded and handed to `handle_msg` together with the sender's
//! address; the returned action tells the surrounding I/O code what to
//! do (forward a payload, try to bind a port, send a reply, or drop the
//! frame).  A successful `Request` ends in `handle_request_command`,
//! which records the session.  At most one session exists per client
//! control address; that is the table's invariant.

use vstd::pervasive::VecAdditionalExecFns;
use vstd::prelude::*;

use crate::msg::Command;
use crate::msg::CommandView;
use crate::msg::Msg;
use crate::msg::MsgView;
use crate::msg::PeerAddr;
use crate::msg::Request;
use crate::msg::Response;
use crate::msg::VERSION;

verus! {

/// Server-side record of one client session: the forward port that was
/// bound for the client, and the time of the last frame received from
/// it.  Socket handles and queues live with the I/O code.
#[derive(Clone, Copy, PartialEq, Eq, Structural, Debug)]
pub struct ClientInfo {
    pub forwarding_port: u16,
    pub last_used: u64,
}

/// Keys of `s` are pairwise distinct.
pub open spec fn unique_keys(s: Seq<(PeerAddr, ClientInfo)>) -> bool {
    forall|i: int, j: int| 0 <= i < j < s.len() ==> s[i].0 != s[j].0
}

/// The finite map described by an association list.
pub open spec fn map_of(s: Seq<(PeerAddr, ClientInfo)>) -> Map<PeerAddr, ClientInfo>
    decreases s.len(),
{
    if s.len() == 0 {
        Map::empty()
    } else {
        map_of(s.drop_last()).insert(s.last().0, s.last().1)
    }
}

proof fn lemma_map_of_contains(s: Seq<(PeerAddr, ClientInfo)>, k: PeerAddr)
    ensures
        map_of(s).contains_key(k) <==> exists|i: int| 0 <= i < s.len() && s[i].0 == k,
    decreases s.len(),
{
    if s.len() > 0 {
        let t = s.drop_last();
        lemma_map_of_contains(t, k);
        assert(forall|i: int| 0 <= i < t.len() ==> t[i] == s[i]);
        if exists|i: int| 0 <= i < s.len() && s[i].0 == k {
            let i = choose|i: int| 0 <= i < s.len() && s[i].0 == k;
            if i < s.len() - 1 {
                assert(t[i].0 == k);
            } else {
                assert(s.last().0 == k);
            }
        }
        if map_of(s).contains_key(k) && s.last().0 != k {
            let i = choose|i: int| 0 <= i < t.len() && t[i].0 == k;
            assert(s[i].0 == k);
        }
    }
}

proof fn lemma_map_of_get(s: Seq<(PeerAddr, ClientInfo)>, k: PeerAddr, i: int)
    requires
        unique_keys(s),
        0 <= i < s.len(),
        s[i].0 == k,
    ensures
        map_of(s).contains_key(k),
        map_of(s)[k] == s[i].1,
    decreases s.len(),
{
    if i == s.len() - 1 {
        assert(s.last() == s[i]);
    } else {
        let t = s.drop_last();
        assert(forall|j: int| 0 <= j < t.len() ==> t[j] == s[j]);
        assert(unique_keys(t));
        lemma_map_of_get(t, k, i);
        assert(s.last().0 != k);
    }
}

proof fn lemma_map_of_push(s: Seq<(PeerAddr, ClientInfo)>, p: (PeerAddr, ClientInfo))
    ensures
        map_of(s.push(p)) == map_of(s).insert(p.0, p.1),
{
    assert(s.push(p).drop_last() =~= s);
    assert(s.push(p).last() == p);
}

proof fn lemma_map_of_update(s: Seq<(PeerAddr, ClientInfo)>, i: int, p: (PeerAddr, ClientInfo))
    requires
        unique_keys(s),
        0 <= i < s.len(),
        p.0 == s[i].0,
    ensures
        map_of(s.update(i, p)) == map_of(s).insert(p.0, p.1),
    decreases s.len(),
{
    let t = s.update(i, p);
    if i == s.len() - 1 {
        assert(t.drop_last() =~= s.drop_last());
        assert(t.last() == p);
        assert(map_of(s.drop_last()).insert(s.last().0, s.last().1).insert(p.0, p.1)
            =~= map_of(s.drop_last()).insert(p.0, p.1));
    } else {
        let st = s.drop_last();
        assert(forall|j: int| 0 <= j < st.len() ==> st[j] == s[j]);
        assert(unique_keys(st));
        lemma_map_of_update(st, i, p);
        assert(t.drop_last() =~= st.update(i, p));
        assert(t.last() == s.last());
        assert(s.last().0 != p.0);
        assert(map_of(st).insert(p.0, p.1).insert(s.last().0, s.last().1)
            =~= map_of(st).insert(s.last().0, s.last().1).insert(p.0, p.1));
    }
}

/// The server's session table, keyed by the client's control-socket
/// address.  Viewed as a map from client address to session record; at
/// most one session per client address.
pub struct Sessions {
    entries: Vec<(PeerAddr, ClientInfo)>,
}

impl View for Sessions {
    type V = Map<PeerAddr, ClientInfo>;

    closed spec fn view(&self) -> Map<PeerAddr, ClientInfo> {
        map_of(self.entries@)
    }
}

impl Sessions {
    /// One entry per client address.
    pub closed spec fn wf(&self) -> bool {
        unique_keys(self.entries@)
    }

    /// The empty table the server starts with.
    pub fn new() -> (s: Sessions)
        ensures
            s.wf(),
            s@ == Map::<PeerAddr, ClientInfo>::empty(),
    {
        Sessions { entries: Vec::new() }
    }

    fn find(&self, client: &PeerAddr) -> (r: Option<usize>)
        ensures
            match r {
                Some(i) => 0 <= i < self.entries@.len() && self.entries@[i as int].0 == *client,
                None => forall|i: int|
                    0 <= i < self.entries@.len() ==> self.entries@[i].0 != *client,
            },
    {
        let mut i: usize = 0;
        while i < self.entries.len()
            invariant
                i <= self.entries@.len(),
                forall|j: int| 0 <= j < i ==> self.entries@[j].0 != *client,
            decreases self.entries@.len() - i,
        {
            if self.entries[i].0 == *client {
                return Some(i);
            }
            i = i + 1;
        }
        None
    }

    /// Whether a session exists for this client address.
    pub fn contains(&self, client: &PeerAddr) -> (r: bool)
        ensures
            r == self@.contains_key(*client),
    {
        proof {
            lemma_map_of_contains(self.entries@, *client);
        }
        match self.find(client) {
            Some(_) => true,
            None => false,
        }
    }

    /// The session record for this client address, if one exists.
    pub fn session(&self, client: &PeerAddr) -> (r: Option<ClientInfo>)
        requires
            self.wf(),
        ensures
            match r {
                Some(info) => self@.contains_key(*client) && info == self@[*client],
                None => !self@.contains_key(*client),
            },
    {
        proof {
            lemma_map_of_contains(self.entries@, *client);
        }
        match self.find(client) {
            Some(i) => {
                proof {
                    lemma_map_of_get(self.entries@, *client, i as int);
                }
                Some(self.entries[i].1)
            }
            None => None,
        }
    }

    /// Refresh `last_used` for this client, if it has a session.
    fn touch(&mut self, client: &PeerAddr, now: u64) -> (found: bool)
        requires
            old(self).wf(),
        ensures
            final(self).wf(),
            found == old(self)@.contains_key(*client),
            found ==> final(self)@ == old(self)@.insert(
                *client,
                (ClientInfo {
                    forwarding_port: old(self)@[*client].forwarding_port,
                    last_used: now,
                }),
            ),
            !found ==> final(self)@ == old(self)@,
    {
        proof {
            lemma_map_of_contains(self.entries@, *client);
        }
        match self.find(client) {
            Some(i) => {
                proof {
                    lemma_map_of_get(self.entries@, *client, i as int);
                }
                let pair = self.entries[i];
                let fresh = ClientInfo { forwarding_port: pair.1.forwarding_port, last_used: now };
                let ghost s0 = self.entries@;
                self.entries.set(i, (pair.0, fresh));
                proof {
                    assert(forall|a: int|
                        0 <= a < self.entries@.len() ==> self.entries@[a].0 == s0[a].0);
                    assert(unique_keys(self.entries@));
                    lemma_map_of_update(s0, i as int, (pair.0, fresh));
                }
                true
            }
            None => false,
        }
    }
}

/// The token check applied to handshake requests.  It is a placeholder
/// for a future authenticator and accepts every token.
pub open spec fn spec_token_valid(token: u32) -> bool {
    true
}

/// Executable form of `spec_token_valid`.
#[allow(unused_variables)]
pub fn token_valid(token: u32) -> (r: bool)
    ensures
        r == spec_token_valid(token),
{
    true
}

/// The frame a server sends to accept a handshake.
pub open spec fn success_reply() -> MsgView {
    MsgView { version: VERSION, command: CommandView::Response(Response::Success) }
}

/// The frame a server sends when the requested port cannot be bound.
pub open spec fn port_in_use_reply() -> MsgView {
    MsgView { version: VERSION, command: CommandView::Response(Response::PortInUse) }
}

/// What the I/O code around the dispatcher must do with a frame.
pub enum ServerAction {
    /// Hand `payload` to the session's forward writer, to be sent to
    /// external peer `peer` from the forward socket.
    Forward { peer: PeerAddr, payload: Vec<u8> },
    /// Try to bind a forward socket on the requested port, then finish
    /// the handshake with `handle_request_command`.
    TryBind { req: Request },
    /// Send `reply` to the client on the control socket.
    Reply { reply: Msg },
    /// Nothing to send: the frame only refreshed the session.
    Refresh,
    /// Drop the frame and log a warning: a protocol or authentication
    /// error, answered with silence.
    Discard,
}

/// Dispatch one decoded frame from control address `client`, observed at
/// time `now`.
///
/// A frame of a foreign version is dropped.  A tunneled payload or a
/// keepalive from a client with a session refreshes `last_used`; from an
/// unknown client it is dropped and the table is unchanged.  A repeated
/// `Request` from a registered client is answered with `Success` again;
/// a fresh `Request` with a valid token asks the caller to bind the
/// port; a `Response` from a client is a protocol violation and is
/// dropped.
pub fn handle_msg(sessions: &mut Sessions, client: PeerAddr, msg: Msg, now: u64) -> (action:
    ServerAction)
    requires
        old(sessions).wf(),
    ensures
        final(sessions).wf(),
        msg@.version != VERSION ==> action is Discard && final(sessions)@ == old(sessions)@,
        msg@.version == VERSION ==> match msg@.command {
            CommandView::UdpPayload(src, data) => if old(sessions)@.contains_key(client) {
                action matches ServerAction::Forward { peer, payload } && peer == src
                    && payload@ == data && final(sessions)@ == old(sessions)@.insert(
                    client,
                    (ClientInfo {
                        forwarding_port: old(sessions)@[client].forwarding_port,
                        last_used: now,
                    }),
                )
            } else {
                action is Discard && final(sessions)@ == old(sessions)@
            },
            CommandView::Request(req) => {
                &&& old(sessions)@.contains_key(client) ==> (action matches ServerAction::Reply {
                    reply,
                } && reply@ == success_reply() && final(sessions)@ == old(sessions)@)
                &&& !old(sessions)@.contains_key(client) && !spec_token_valid(req.token)
                    ==> action is Discard && final(sessions)@ == old(sessions)@
                &&& !old(sessions)@.contains_key(client) && spec_token_valid(req.token) ==> (
                action matches ServerAction::TryBind { req: r } && r == req
                    && final(sessions)@ == old(sessions)@)
            },
            CommandView::Keepalive => if old(sessions)@.contains_key(client) {
                action is Refresh && final(sessions)@ == old(sessions)@.insert(
                    client,
                    (ClientInfo {
                        forwarding_port: old(sessions)@[client].forwarding_port,
                        last_used: now,
                    }),
                )
            } else {
                action is Discard && final(sessions)@ == old(sessions)@
            },
            CommandView::Response(_) => action is Discard && final(sessions)@ == old(sessions)@,
        },
{
    if msg.version != VERSION {
        return ServerAction::Discard;
    }
    match msg.command {
        Command::UdpPayload(src, payload) => {
            let found = sessions.touch(&client, now);
            if found {
                ServerAction::Forward { peer: src, payload }
            } else {
                ServerAction::Discard
            }
        }
        Command::Request(req) => {
            if sessions.contains(&client) {
                ServerAction::Reply { reply: Msg::new(Command::Response(Response::Success)) }
            } else if !token_valid(req.token) {
                ServerAction::Discard
            } else {
                ServerAction::TryBind { req }
            }
        }
        Command::Keepalive => {
            let found = sessions.touch(&client, now);
            if found {
                ServerAction::Refresh
            } else {
                ServerAction::Discard
            }
        }
        Command::Response(_) => ServerAction::Discard,
    }
}

/// Finish a handshake for a client without a session: `bound` says
/// whether the forward socket could be bound on the requested port.  On
/// success the session is recorded and the reply is `Success`; on a bind
/// failure no session is created and the reply is `PortInUse`.
pub fn handle_request_command(
    sessions: &mut Sessions,
    client: PeerAddr,
    req: Request,
    bound: bool,
    now: u64,
) -> (reply: Msg)
    requires
        old(sessions).wf(),
        !old(sessions)@.contains_key(client),
    ensures
        final(sessions).wf(),
        bound ==> reply@ == success_reply() && final(sessions)@ == old(sessions)@.insert(
            client,
            (ClientInfo { forwarding_port: req.port, last_used: now }),
        ),
        !bound ==> reply@ == port_in_use_reply() && final(sessions)@ == old(sessions)@,
{
    if bound {
        proof {
            lemma_map_of_contains(sessions.entries@, client);
        }
        let info = ClientInfo { forwarding_port: req.port, last_used: now };
        let ghost s0 = sessions.entries@;
        sessions.entries.push((client, info));
        proof {
            assert(forall|a: int| 0 <= a < s0.len() ==> sessions.entries@[a] == s0[a]);
            assert(unique_keys(sessions.entries@));
            lemma_map_of_push(s0, (client, info));
        }
        Msg::new(Command::Response(Response::Success))
    } else {
        Msg::new(Command::Response(Response::PortInUse))
    }
}

} // verus!
