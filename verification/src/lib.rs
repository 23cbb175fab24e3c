//! A small, fire-and-forget publish/subscribe message bus speaking the
//! Macro-Bus Protocol (MBP/1.0), a text, line-oriented protocol in the spirit
//! of NNTP and SMTP.
//!
//! The library does no input or output. It holds the protocol types and codecs,
//! the in-memory registry of a daemon, and the daemon, client and peer sessions
//! as state machines that take bytes and give back bytes and actions.
use vstd::prelude::*;

pub mod answer_laws;
pub mod body;
pub mod cli;
pub mod client;
pub mod client_laws;
pub mod command;
pub mod command_laws;
pub mod config;
pub mod conn;
pub mod delivery_laws;
pub mod drop_laws;
pub mod event_laws;
pub mod exchange_laws;
pub mod federation;
pub mod federation_laws;
pub mod frame;
pub mod link_laws;
pub mod message;
pub mod number;
pub mod ownership_laws;
pub mod protocol_laws;
pub mod queue;
pub mod registry;
pub mod registry_laws;
pub mod reply;
pub mod run_laws;
pub mod seen;
pub mod server;
pub mod session_laws;
pub mod setting_laws;
pub mod status;
pub mod table;
pub mod text;
pub mod text_laws;
pub mod tls;
pub mod validate;
pub mod wire;

pub use command::{parse, Command, ParseError};
pub use config::build_registry;
pub use message::Message;
pub use status::Code;

verus! {

broadcast use vstd::string::group_string_axioms;

/// Protocol identifier string used in greetings and capabilities.
pub const PROTOCOL_ID: &'static str = "MBP/1.0";

/// Default Unix domain socket path, used by the daemon and the command line.
pub const DEFAULT_SOCKET_PATH: &'static str = "/var/run/macro-bus.sock";

/// The greeting of a daemon in a given role.
pub open spec fn greeting_text(daemon_id: Seq<char>, role: Seq<char>) -> Seq<char> {
    number::decimal(status::SERVICE_READY as nat) + " "@ + daemon_id + " "@ + role + " "@
        + PROTOCOL_ID@ + " ready"@
}

fn greeting_as(daemon_id: &str, role: &str) -> (s: String)
    ensures
        s@ == greeting_text(daemon_id@, role@),
{
    let mut out = number::to_decimal(status::SERVICE_READY as u64);
    out.append(" ");
    out.append(daemon_id);
    out.append(" ");
    out.append(role);
    out.append(" ");
    out.append(PROTOCOL_ID);
    out.append(" ready");
    out
}

/// The client-facing greeting line (without trailing CRLF) for a given daemon.
pub fn greeting(daemon_id: &str) -> (s: String)
    ensures
        s@ == greeting_text(daemon_id@, "macro-bus"@),
{
    greeting_as(daemon_id, "macro-bus")
}

/// The federation-link greeting line (without trailing CRLF) for a given daemon.
pub fn peer_greeting(daemon_id: &str) -> (s: String)
    ensures
        s@ == greeting_text(daemon_id@, "macro-bus-peer"@),
{
    greeting_as(daemon_id, "macro-bus-peer")
}

} // verus!
