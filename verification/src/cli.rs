//! Entry decisions: which role the process runs, and the state it
//! starts from.  Argument parsing itself is I/O and stays outside; this
//! module turns parsed arguments into the initial state of the chosen
//! role.

use vstd::prelude::*;

use crate::client::handshake_request;
use crate::client::PeerTable;
use crate::msg::CommandView;
use crate::msg::Msg;
use crate::msg::MsgView;
use crate::msg::PeerAddr;
use crate::msg::Request;
use crate::msg::REQUEST_TOKEN;
use crate::msg::VERSION;
use crate::server::ClientInfo;
use crate::server::Sessions;

verus! {

/// The two subcommands of the tunnel binary.
pub enum Commands {
    /// `server <port>`: bind the control socket on this port and serve.
    Server { port: u16 },
    /// `client <server_endpoint> <server_forward_port>
    /// <forward_to_endpoint>`: open the tunnel and relay peer traffic.
    Client {
        server_endpoint: PeerAddr,
        server_forward_port: u16,
        forward_to_endpoint: PeerAddr,
    },
}

/// The parsed command line.
pub struct Args {
    pub command: Commands,
}

/// What a process starts as: its role, the endpoints it talks to, and
/// the empty table of its side; a client also starts with the one
/// handshake frame it must send first.
pub enum Role {
    Server { port: u16, sessions: Sessions },
    Client {
        server_endpoint: PeerAddr,
        forward_to_endpoint: PeerAddr,
        handshake: Msg,
        peers: PeerTable,
    },
}

/// Dispatch on the parsed command line: a `server` command starts a
/// server with an empty session table on the given port; a `client`
/// command starts a client with an empty peer table and the handshake
/// request for the asked-for forward port.
pub fn run(args: Args) -> (r: Role)
    ensures
        match args.command {
            Commands::Server { port } => (r matches Role::Server { port: p, sessions }
                && p == port && sessions.wf() && sessions@ == Map::<PeerAddr, ClientInfo>::empty()),
            Commands::Client { server_endpoint, server_forward_port, forward_to_endpoint } => (r
                matches Role::Client {
                server_endpoint: se,
                forward_to_endpoint: fe,
                handshake,
                peers,
            } && se == server_endpoint && fe == forward_to_endpoint && handshake@ == (MsgView {
                version: VERSION,
                command: CommandView::Request((Request {
                    port: server_forward_port,
                    token: REQUEST_TOKEN,
                })),
            }) && peers.wf() && peers@ == Set::<PeerAddr>::empty()),
        },
{
    match args.command {
        Commands::Server { port } => Role::Server { port, sessions: Sessions::new() },
        Commands::Client { server_endpoint, server_forward_port, forward_to_endpoint } => {
            Role::Client {
                server_endpoint,
                forward_to_endpoint,
                handshake: handshake_request(server_forward_port),
                peers: PeerTable::new(),
            }
        }
    }
}

} // verus!
