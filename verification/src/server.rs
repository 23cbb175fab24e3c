//! Decisions of the local Unix-domain-socket server. Binding, accepting and the
//! file system itself are the caller's business.
use vstd::prelude::*;

verus! {

broadcast use vstd::string::group_string_axioms;

/// The permissions of the socket file: its owner may read and write.
pub const SOCKET_MODE: u32 = 0o600;

/// What stands at the path of the socket.
#[derive(Debug, Clone, Copy, PartialEq, Eq, Structural)]
pub enum Found {
    /// Nothing.
    Nothing,
    /// A socket.
    Socket,
    /// Something else.
    Other,
}

/// What to do about what stands at the path of the socket, before binding it. A
/// socket is a stale one, left by a previous run (a restart is a clean slate, so
/// an old socket file is never meaningful): `Ok(true)` says to remove it.
/// Anything else is not touched, and refused.
pub fn clear_path(path: &str, found: Found) -> (r: Result<bool, String>)
    ensures
        match found {
            Found::Nothing => r matches Ok(remove) && !remove,
            Found::Socket => r matches Ok(remove) && remove,
            Found::Other => r is Err && r->Err_0@ == "refusing to bind: "@ + path@
                + " exists and is not a socket"@,
        },
{
    match found {
        Found::Nothing => Ok(false),
        Found::Socket => Ok(true),
        Found::Other => Err(
            "refusing to bind: ".to_string().concat(path).concat(" exists and is not a socket"),
        ),
    }
}

/// Whether the directory of the socket is in order: it has to exist, unless the
/// path has none.
pub fn check_parent(parent: &str, exists: bool) -> (r: Result<(), String>)
    ensures
        match r {
            Ok(_) => parent@.len() == 0 || exists,
            Err(e) => parent@.len() > 0 && !exists && e@ == "socket directory "@ + parent@
                + " does not exist"@,
        },
{
    if !parent.is_empty() && !exists {
        return Err("socket directory ".to_string().concat(parent).concat(" does not exist"));
    }
    Ok(())
}

} // verus!
