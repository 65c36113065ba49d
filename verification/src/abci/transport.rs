//! Endpoints: which transport an address asks for.
use vstd::prelude::*;

use crate::abci::error::CosmosTxPoolError;
use crate::text;

verus! {

/// The transport that an endpoint asks for.
#[derive(Clone, Debug, PartialEq, Eq)]
pub enum AbciTransportConfig {
    /// GRPC endpoint (e.g. "http://localhost:26658").
    Grpc(String),
    /// Path of a Unix socket (e.g. "/tmp/abci.sock").
    Unix(String),
    /// TCP address (e.g. "localhost:26658").
    Tcp(String),
}

impl AbciTransportConfig {
    /// Whether this is what `endpoint` asks for.
    pub open spec fn describes(self, endpoint: Seq<char>) -> bool {
        if "unix://"@.is_prefix_of(endpoint) {
            self matches AbciTransportConfig::Unix(path) && path@ == text::strip_all(
                endpoint,
                "unix://"@,
            )
        } else if "tcp://"@.is_prefix_of(endpoint) {
            self matches AbciTransportConfig::Tcp(addr) && addr@ == text::strip_all(
                endpoint,
                "tcp://"@,
            )
        } else {
            self matches AbciTransportConfig::Grpc(whole) && whole@ == endpoint
        }
    }

    /// Parses an endpoint: a scheme of `unix://` or `tcp://` names a socket,
    /// anything else is taken whole as a GRPC endpoint.
    pub fn from_endpoint(endpoint: &str) -> (config: Self)
        ensures
            config.describes(endpoint@),
    {
        if text::starts_with(endpoint, "unix://") {
            AbciTransportConfig::Unix(
                String::from_str(text::trim_start_matches(endpoint, "unix://")),
            )
        } else if text::starts_with(endpoint, "tcp://") {
            AbciTransportConfig::Tcp(
                String::from_str(text::trim_start_matches(endpoint, "tcp://")),
            )
        } else {
            AbciTransportConfig::Grpc(String::from_str(endpoint))
        }
    }
}

/// A client that talks to an application over a Unix or TCP socket.
#[derive(Clone, Debug, PartialEq, Eq)]
pub struct SocketAbciClient {
    endpoint: String,
}

/// What a socket client connects to.
#[derive(Clone, Debug, PartialEq, Eq)]
pub enum SocketTarget {
    Unix(String),
    Tcp(String),
}

impl SocketAbciClient {
    /// The address that the client was made with.
    pub closed spec fn address(self) -> Seq<char> {
        self.endpoint@
    }

    /// Creates a client for an address.
    pub fn new(endpoint: String) -> (client: Self)
        ensures
            client.address() == endpoint@,
    {
        SocketAbciClient { endpoint }
    }

    /// The address of the client.
    pub fn endpoint(&self) -> (endpoint: &str)
        ensures
            endpoint@ == self.address(),
    {
        self.endpoint.as_str()
    }

    /// Where to connect: an absolute path is a Unix socket, anything else a
    /// TCP address.
    pub fn target(&self) -> (target: SocketTarget)
        ensures
            if self.address().len() > 0 && self.address()[0] == '/' {
                target matches SocketTarget::Unix(path) && path@ == self.address()
            } else {
                target matches SocketTarget::Tcp(addr) && addr@ == self.address()
            },
    {
        proof {
            reveal_strlit("/");
            assert("/"@.is_prefix_of(self.endpoint@) <==> self.endpoint@.len() > 0
                && self.endpoint@[0] == '/') by {
                if self.endpoint@.len() > 0 {
                    assert(self.endpoint@.subrange(0, 1)[0] == self.endpoint@[0]);
                    if self.endpoint@[0] == '/' {
                        assert("/"@ =~= self.endpoint@.subrange(0, 1));
                    }
                }
            }
        }
        if text::starts_with(self.endpoint.as_str(), "/") {
            SocketTarget::Unix(self.endpoint.clone())
        } else {
            SocketTarget::Tcp(self.endpoint.clone())
        }
    }
}

/// The message of the error for a GRPC endpoint where a socket is needed.
pub open spec fn grpc_endpoint_refused() -> Seq<char> {
    "grpc endpoint passed to socket client"@
}

/// Makes a socket client for an endpoint with a socket scheme.
pub fn socket_client_from_endpoint(endpoint: &str) -> (r: Result<
    SocketAbciClient,
    CosmosTxPoolError,
>)
    ensures
        match r {
            Ok(client) => {
                ||| "unix://"@.is_prefix_of(endpoint@) && client.address() == text::strip_all(
                    endpoint@,
                    "unix://"@,
                )
                ||| !"unix://"@.is_prefix_of(endpoint@) && "tcp://"@.is_prefix_of(endpoint@)
                    && client.address() == text::strip_all(endpoint@, "tcp://"@)
            },
            Err(e) => {
                &&& !"unix://"@.is_prefix_of(endpoint@)
                &&& !"tcp://"@.is_prefix_of(endpoint@)
                &&& e matches CosmosTxPoolError::InvalidEndpoint(s) && s@ == grpc_endpoint_refused()
            },
        },
{
    match AbciTransportConfig::from_endpoint(endpoint) {
        AbciTransportConfig::Unix(path) => Ok(SocketAbciClient::new(path)),
        AbciTransportConfig::Tcp(addr) => Ok(SocketAbciClient::new(addr)),
        AbciTransportConfig::Grpc(_) => Err(
            CosmosTxPoolError::InvalidEndpoint(
                String::from_str("grpc endpoint passed to socket client"),
            ),
        ),
    }
}

/// An endpoint behind `unix://` is a socket path, one behind `tcp://` an
/// address, and any other a gRPC endpoint as it stands.
pub proof fn endpoints_name_their_transport(config: AbciTransportConfig, rest: Seq<char>)
    ensures
        !"unix://"@.is_prefix_of(rest) ==> (config.describes("unix://"@ + rest) <==> (
        config matches AbciTransportConfig::Unix(path) && path@ == rest)),
        !"tcp://"@.is_prefix_of(rest) ==> (config.describes("tcp://"@ + rest) <==> (
        config matches AbciTransportConfig::Tcp(addr) && addr@ == rest)),
        !"unix://"@.is_prefix_of(rest) && !"tcp://"@.is_prefix_of(rest) ==> (config.describes(rest)
            <==> (config matches AbciTransportConfig::Grpc(whole) && whole@ == rest)),
{
    reveal_strlit("unix://");
    reveal_strlit("tcp://");
    let unix = "unix://"@ + rest;
    let tcp = "tcp://"@ + rest;
    assert(unix.skip("unix://"@.len() as int) =~= rest);
    assert(tcp.skip("tcp://"@.len() as int) =~= rest);
    assert(unix.subrange(0, "unix://"@.len() as int) =~= "unix://"@);
    assert(tcp.subrange(0, "tcp://"@.len() as int) =~= "tcp://"@);
    assert(!"unix://"@.is_prefix_of(tcp)) by {
        if "unix://"@.is_prefix_of(tcp) {
            assert(tcp.subrange(0, "unix://"@.len() as int)[0] == tcp[0]);
        }
    }
    reveal_with_fuel(text::strip_all, 2);
}

/// A mark in front of an endpoint counts once, however often it stands there.
pub proof fn marks_count_once(config: AbciTransportConfig, rest: Seq<char>)
    ensures
        config.describes("unix://"@ + ("unix://"@ + rest)) <==> config.describes("unix://"@ + rest),
        config.describes("tcp://"@ + ("tcp://"@ + rest)) <==> config.describes("tcp://"@ + rest),
{
    lemma_marked("unix://"@, rest);
    lemma_marked("unix://"@, "unix://"@ + rest);
    lemma_marked("tcp://"@, rest);
    lemma_marked("tcp://"@, "tcp://"@ + rest);
    reveal_strlit("unix://");
    reveal_strlit("tcp://");
    let once = "tcp://"@ + rest;
    let twice = "tcp://"@ + once;
    assert(!"unix://"@.is_prefix_of(once)) by {
        if "unix://"@.is_prefix_of(once) {
            assert(once.subrange(0, "unix://"@.len() as int)[0] == once[0]);
        }
    }
    assert(!"unix://"@.is_prefix_of(twice)) by {
        if "unix://"@.is_prefix_of(twice) {
            assert(twice.subrange(0, "unix://"@.len() as int)[0] == twice[0]);
        }
    }
}

proof fn lemma_marked(mark: Seq<char>, rest: Seq<char>)
    requires
        mark == "unix://"@ || mark == "tcp://"@,
    ensures
        mark.is_prefix_of(mark + rest),
        text::strip_all(mark + rest, mark) == text::strip_all(rest, mark),
{
    reveal_strlit("unix://");
    reveal_strlit("tcp://");
    let all = mark + rest;
    assert(all.subrange(0, mark.len() as int) =~= mark);
    assert(all.skip(mark.len() as int) =~= rest);
}

} // verus!
