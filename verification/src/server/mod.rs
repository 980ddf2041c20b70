//! The collector's end of the socket: which connections are admitted, how long
//! one is served, and when a reply makes the collector reload.

use vstd::prelude::*;

use crate::collectors::runners::effective_roots;
use crate::config::Config;
use crate::error::Error;
use crate::ipc::Response;
use crate::paths::Places;
use crate::text::names;

pub mod auth;
pub mod dispatch;
pub mod laws;
pub mod replies;

verus! {

/// How often, in milliseconds, the accept loop looks whether it is to stop.
pub const ACCEPT_POLL_MS: u64 = 500;

/// How long, in milliseconds, a silent client keeps its connection.
pub const CONN_TIMEOUT_MS: u64 = 5_000;

/// How many connections are served at once. Past it a connection is dropped at
/// once, which is better than leaving it to wait.
pub const MAX_CONNS: usize = 8;

/// Whether one more connection is admitted.
pub fn admits(live: usize) -> (r: bool)
    ensures
        r == (live < MAX_CONNS),
{
    live < MAX_CONNS
}

/// How a read of a request came to no request.
#[derive(Debug, Clone, Copy, PartialEq, Eq, Structural)]
pub enum ReadEnd {
    /// The client hung up.
    UnexpectedEof,
    /// The client sent nothing for too long.
    WouldBlock,
    TimedOut,
    Other,
}

/// Whether a connection that came to no request ended as it may: by a client that
/// hung up or fell silent. Anything else is an error.
pub fn ends_cleanly(end: ReadEnd) -> (r: bool)
    ensures
        r <==> end != ReadEnd::Other,
{
    match end {
        ReadEnd::UnexpectedEof | ReadEnd::WouldBlock | ReadEnd::TimedOut => true,
        ReadEnd::Other => false,
    }
}

/// Whether the configuration is to be read again: only after a write was
/// persisted.
pub fn reloads(reply: &Response) -> (r: bool)
    ensures
        r <==> reply is Mutated,
{
    match reply {
        Response::Mutated => true,
        _ => false,
    }
}

/// The configuration after a reload: the file's, or the defaults where that cannot
/// be used, with the discovered roots where it names none.
pub fn reload_config(loaded: Result<Config, Error>, env: &Places, discovered: &[String]) -> (r:
    Config)
    ensures
        match loaded {
            Ok(c) => {
                &&& r == (Config { runner_roots: r.runner_roots, ..c })
                &&& names(r.runner_roots@) == if c.runner_roots@.len() > 0 {
                    names(c.runner_roots@)
                } else {
                    names(discovered@)
                }
            },
            Err(_) => {
                &&& exists|d: Config| #[trigger]
                    d.is_default(*env) && r == (Config { runner_roots: r.runner_roots, ..d })
                &&& names(r.runner_roots@) == names(discovered@)
            },
        },
{
    let mut cfg = match loaded {
        Ok(c) => c,
        Err(_) => Config::defaults(env),
    };
    let ghost before = cfg;
    cfg.runner_roots = effective_roots(cfg.runner_roots.as_slice(), discovered);
    assert(loaded is Err ==> before.is_default(*env));
    cfg
}

} // verus!
