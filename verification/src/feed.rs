//! Decisions of the command line tool that feeds a raw transaction to the pool
//! or serves the pool's JSON-RPC front end.
use vstd::prelude::*;

use crate::abci::error::labelled;
use crate::text;

verus! {

/// Where the front end listens by default.
pub const DEFAULT_LISTEN: &'static str = "127.0.0.1:26657";

/// Whether the arguments ask to serve: the first one says so.
pub fn wants_serve(first_argument: Option<&str>) -> (r: bool)
    ensures
        r == (first_argument matches Some(a) && a@ == "serve"@),
{
    match first_argument {
        Some(a) => text::same_text(a, "serve"),
        None => false,
    }
}

/// Where the socket of the pool and the file of the transaction come from.
#[derive(Clone, Copy, Debug, PartialEq, Eq, Structural)]
pub enum FeedPlan {
    /// The socket is the first argument, the file the second.
    SocketFromArgument,
    /// The socket comes from the environment, the file is the last argument.
    SocketFromEnvironment,
    /// A lone file argument needs a socket in the environment.
    EnvironmentRequired,
    /// The socket argument is empty and there is none in the environment.
    SocketEmpty,
    /// The arguments make no sense.
    Usage,
}

/// Plans a feed from the number of arguments, whether the first one is empty,
/// and whether the environment names a socket.
pub fn plan_feed(arguments: usize, first_is_empty: bool, environment_has_socket: bool) -> (r:
    FeedPlan)
    ensures
        r == if arguments == 1 {
            if environment_has_socket {
                FeedPlan::SocketFromEnvironment
            } else {
                FeedPlan::EnvironmentRequired
            }
        } else if arguments == 2 {
            if !first_is_empty {
                FeedPlan::SocketFromArgument
            } else if environment_has_socket {
                FeedPlan::SocketFromEnvironment
            } else {
                FeedPlan::SocketEmpty
            }
        } else {
            FeedPlan::Usage
        },
{
    if arguments == 1 {
        if environment_has_socket {
            FeedPlan::SocketFromEnvironment
        } else {
            FeedPlan::EnvironmentRequired
        }
    } else if arguments == 2 {
        if !first_is_empty {
            FeedPlan::SocketFromArgument
        } else if environment_has_socket {
            FeedPlan::SocketFromEnvironment
        } else {
            FeedPlan::SocketEmpty
        }
    } else {
        FeedPlan::Usage
    }
}

/// Where the socket of a served pool comes from.
#[derive(Clone, Copy, Debug, PartialEq, Eq, Structural)]
pub enum ServePlan {
    SocketFromArgument,
    SocketFromEnvironment,
    /// There is no socket, or its path is empty.
    SocketRequired,
}

/// Plans a server from whether a path was given, whether that path is empty,
/// and whether the environment names a socket. A path that was given counts
/// before the environment, even an empty one.
pub fn plan_serve(given: bool, given_is_empty: bool, environment_has_socket: bool) -> (r:
    ServePlan)
    ensures
        r == if given && !given_is_empty {
            ServePlan::SocketFromArgument
        } else if !given && environment_has_socket {
            ServePlan::SocketFromEnvironment
        } else {
            ServePlan::SocketRequired
        },
{
    if given {
        if given_is_empty {
            ServePlan::SocketRequired
        } else {
            ServePlan::SocketFromArgument
        }
    } else if environment_has_socket {
        ServePlan::SocketFromEnvironment
    } else {
        ServePlan::SocketRequired
    }
}

/// The line that reports a transaction of `length` bytes sent to `socket`.
pub fn sent_line(length: u64, socket: &str) -> (out: String)
    ensures
        out@ == "ok: sent 1 tx ("@ + text::decimal_text(length as nat) + " bytes) to "@ + socket@
            + " (exit 0)"@,
{
    let mut out: String = String::from_str("ok: sent 1 tx (");
    text::push_decimal(&mut out, length);
    out.append(" bytes) to ");
    out.append(socket);
    out.append(" (exit 0)");
    out
}

/// The line that reports a failure to send to `socket`.
pub fn failed_line(socket: &str, reason: &str) -> (out: String)
    ensures
        out@ == "connect to monad-node mempool unix socket ("@ + socket@ + "): "@ + reason@,
{
    let mut out: String = labelled("connect to monad-node mempool unix socket (", socket);
    out.append("): ");
    out.append(reason);
    out
}

} // verus!
