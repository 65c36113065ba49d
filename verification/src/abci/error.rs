//! Errors of ABCI calls and of the components that make them.
//!
//! Codec and input/output failures are carried as the text of the error that
//! the codec or the operating system reported.
use vstd::prelude::*;

verus! {

/// Failure of an ABCI client operation.
#[derive(Clone, Debug, PartialEq, Eq)]
pub enum AbciClientError {
    InvalidEndpoint(String),
    Transport(String),
    GrpcStatus(String),
    Encode(String),
    Decode(String),
    ProposalRejected,
    Io(String),
    Timeout,
    ConnectionClosed,
}

/// Failure of a transaction pool operation.
#[derive(Clone, Debug, PartialEq, Eq)]
pub enum CosmosTxPoolError {
    InvalidEndpoint(String),
    Transport(String),
    GrpcStatus(String),
    Encode(String),
    Decode(String),
    ProposalRejected,
    Io(String),
}

/// Failure of an operation of the consensus integration.
#[derive(Clone, Debug, PartialEq, Eq)]
pub enum CosmosIntegrationError {
    InvalidEndpoint(String),
    Transport(String),
    GrpcStatus(String),
    Encode(String),
    Decode(String),
    ProposalRejected,
    FullBlock,
    Io(String),
}

/// `prefix` followed by `detail`.
pub fn labelled(prefix: &str, detail: &str) -> (out: String)
    ensures
        out@ == prefix@ + detail@,
{
    String::from_str(prefix).concat(detail)
}

impl AbciClientError {
    /// The text shown to users.
    pub open spec fn text(self) -> Seq<char> {
        match self {
            AbciClientError::InvalidEndpoint(s) => "invalid ABCI endpoint: "@ + s@,
            AbciClientError::Transport(s) => "transport error: "@ + s@,
            AbciClientError::GrpcStatus(s) => "grpc status: "@ + s@,
            AbciClientError::Encode(s) => "encode error: "@ + s@,
            AbciClientError::Decode(s) => "decode error: "@ + s@,
            AbciClientError::ProposalRejected => "proposal rejected by ABCI application"@,
            AbciClientError::Io(s) => "io error: "@ + s@,
            AbciClientError::Timeout => "timeout"@,
            AbciClientError::ConnectionClosed => "connection closed"@,
        }
    }

    /// The error as a message.
    pub fn message(&self) -> (out: String)
        ensures
            out@ == self.text(),
    {
        match self {
            AbciClientError::InvalidEndpoint(s) => labelled("invalid ABCI endpoint: ", s.as_str()),
            AbciClientError::Transport(s) => labelled("transport error: ", s.as_str()),
            AbciClientError::GrpcStatus(s) => labelled("grpc status: ", s.as_str()),
            AbciClientError::Encode(s) => labelled("encode error: ", s.as_str()),
            AbciClientError::Decode(s) => labelled("decode error: ", s.as_str()),
            AbciClientError::ProposalRejected => String::from_str(
                "proposal rejected by ABCI application",
            ),
            AbciClientError::Io(s) => labelled("io error: ", s.as_str()),
            AbciClientError::Timeout => String::from_str("timeout"),
            AbciClientError::ConnectionClosed => String::from_str("connection closed"),
        }
    }
}

impl CosmosTxPoolError {
    /// The text shown to users.
    pub open spec fn text(self) -> Seq<char> {
        match self {
            CosmosTxPoolError::InvalidEndpoint(s) => "invalid ABCI endpoint: "@ + s@,
            CosmosTxPoolError::Transport(s) => "transport error: "@ + s@,
            CosmosTxPoolError::GrpcStatus(s) => "grpc status: "@ + s@,
            CosmosTxPoolError::Encode(s) => "encode error: "@ + s@,
            CosmosTxPoolError::Decode(s) => "decode error: "@ + s@,
            CosmosTxPoolError::ProposalRejected => "proposal rejected by ABCI application"@,
            CosmosTxPoolError::Io(s) => "io error: "@ + s@,
        }
    }

    /// The error as a message.
    pub fn message(&self) -> (out: String)
        ensures
            out@ == self.text(),
    {
        match self {
            CosmosTxPoolError::InvalidEndpoint(s) => labelled(
                "invalid ABCI endpoint: ",
                s.as_str(),
            ),
            CosmosTxPoolError::Transport(s) => labelled("transport error: ", s.as_str()),
            CosmosTxPoolError::GrpcStatus(s) => labelled("grpc status: ", s.as_str()),
            CosmosTxPoolError::Encode(s) => labelled("encode error: ", s.as_str()),
            CosmosTxPoolError::Decode(s) => labelled("decode error: ", s.as_str()),
            CosmosTxPoolError::ProposalRejected => String::from_str(
                "proposal rejected by ABCI application",
            ),
            CosmosTxPoolError::Io(s) => labelled("io error: ", s.as_str()),
        }
    }

    /// Whether this is the pool's form of a client error: the same failure,
    /// with a timeout or a closed connection told as a transport failure.
    pub open spec fn tells(self, value: AbciClientError) -> bool {
        match value {
            AbciClientError::InvalidEndpoint(s) => self == CosmosTxPoolError::InvalidEndpoint(s),
            AbciClientError::Transport(s) => self == CosmosTxPoolError::Transport(s),
            AbciClientError::GrpcStatus(s) => self == CosmosTxPoolError::GrpcStatus(s),
            AbciClientError::Encode(s) => self == CosmosTxPoolError::Encode(s),
            AbciClientError::Decode(s) => self == CosmosTxPoolError::Decode(s),
            AbciClientError::ProposalRejected => self == CosmosTxPoolError::ProposalRejected,
            AbciClientError::Io(s) => self == CosmosTxPoolError::Io(s),
            AbciClientError::Timeout => self matches CosmosTxPoolError::Transport(t) && t@
                == "ABCI request timed out"@,
            AbciClientError::ConnectionClosed => self matches CosmosTxPoolError::Transport(t) && t@
                == "ABCI connection closed"@,
        }
    }

    /// Turns a client error into a pool error.
    pub fn from(value: AbciClientError) -> (error: Self)
        ensures
            error.tells(value),
    {
        match value {
            AbciClientError::InvalidEndpoint(s) => CosmosTxPoolError::InvalidEndpoint(s),
            AbciClientError::Transport(s) => CosmosTxPoolError::Transport(s),
            AbciClientError::GrpcStatus(s) => CosmosTxPoolError::GrpcStatus(s),
            AbciClientError::Encode(s) => CosmosTxPoolError::Encode(s),
            AbciClientError::Decode(s) => CosmosTxPoolError::Decode(s),
            AbciClientError::ProposalRejected => CosmosTxPoolError::ProposalRejected,
            AbciClientError::Io(s) => CosmosTxPoolError::Io(s),
            AbciClientError::Timeout => CosmosTxPoolError::Transport(
                String::from_str("ABCI request timed out"),
            ),
            AbciClientError::ConnectionClosed => CosmosTxPoolError::Transport(
                String::from_str("ABCI connection closed"),
            ),
        }
    }
}

impl CosmosIntegrationError {
    /// The text shown to users.
    pub open spec fn text(self) -> Seq<char> {
        match self {
            CosmosIntegrationError::InvalidEndpoint(s) => "invalid ABCI endpoint: "@ + s@,
            CosmosIntegrationError::Transport(s) => "transport error: "@ + s@,
            CosmosIntegrationError::GrpcStatus(s) => "grpc status: "@ + s@,
            CosmosIntegrationError::Encode(s) => "encode error: "@ + s@,
            CosmosIntegrationError::Decode(s) => "decode error: "@ + s@,
            CosmosIntegrationError::ProposalRejected => "proposal rejected by ABCI application"@,
            CosmosIntegrationError::FullBlock => "failed to build consensus full block"@,
            CosmosIntegrationError::Io(s) => "io error: "@ + s@,
        }
    }

    /// The error as a message.
    pub fn message(&self) -> (out: String)
        ensures
            out@ == self.text(),
    {
        match self {
            CosmosIntegrationError::InvalidEndpoint(s) => labelled(
                "invalid ABCI endpoint: ",
                s.as_str(),
            ),
            CosmosIntegrationError::Transport(s) => labelled("transport error: ", s.as_str()),
            CosmosIntegrationError::GrpcStatus(s) => labelled("grpc status: ", s.as_str()),
            CosmosIntegrationError::Encode(s) => labelled("encode error: ", s.as_str()),
            CosmosIntegrationError::Decode(s) => labelled("decode error: ", s.as_str()),
            CosmosIntegrationError::ProposalRejected => String::from_str(
                "proposal rejected by ABCI application",
            ),
            CosmosIntegrationError::FullBlock => String::from_str(
                "failed to build consensus full block",
            ),
            CosmosIntegrationError::Io(s) => labelled("io error: ", s.as_str()),
        }
    }
}

/// The pool tells what the client told: the same text, and a transport error
/// for a client that timed out or lost its connection.
pub proof fn the_pool_tells_what_the_client_told(e: CosmosTxPoolError, value: AbciClientError)
    requires
        e.tells(value),
    ensures
        value !is Timeout && value !is ConnectionClosed ==> e.text() == value.text(),
        value is Timeout ==> e.text() == "transport error: "@ + "ABCI request timed out"@,
        value is ConnectionClosed ==> e.text() == "transport error: "@ + "ABCI connection closed"@,
        value is Timeout || value is ConnectionClosed || value is Transport <==> e is Transport,
        value is InvalidEndpoint <==> e is InvalidEndpoint,
        value is GrpcStatus <==> e is GrpcStatus,
        value is Encode <==> e is Encode,
        value is Decode <==> e is Decode,
        value is ProposalRejected <==> e is ProposalRejected,
        value is Io <==> e is Io,
{
}

/// Each error is told in its own words, with its details behind them.
pub proof fn errors_are_told_in_words(s: String)
    ensures
        AbciClientError::InvalidEndpoint(s).text() == "invalid ABCI endpoint: "@ + s@,
        AbciClientError::Transport(s).text() == "transport error: "@ + s@,
        AbciClientError::GrpcStatus(s).text() == "grpc status: "@ + s@,
        AbciClientError::Encode(s).text() == "encode error: "@ + s@,
        AbciClientError::Decode(s).text() == "decode error: "@ + s@,
        AbciClientError::ProposalRejected.text() == "proposal rejected by ABCI application"@,
        AbciClientError::Io(s).text() == "io error: "@ + s@,
        AbciClientError::Timeout.text() == "timeout"@,
        AbciClientError::ConnectionClosed.text() == "connection closed"@,
        CosmosIntegrationError::InvalidEndpoint(s).text() == AbciClientError::InvalidEndpoint(
            s,
        ).text(),
        CosmosIntegrationError::Transport(s).text() == AbciClientError::Transport(s).text(),
        CosmosIntegrationError::GrpcStatus(s).text() == AbciClientError::GrpcStatus(s).text(),
        CosmosIntegrationError::Encode(s).text() == AbciClientError::Encode(s).text(),
        CosmosIntegrationError::Decode(s).text() == AbciClientError::Decode(s).text(),
        CosmosIntegrationError::ProposalRejected.text() == AbciClientError::ProposalRejected.text(),
        CosmosIntegrationError::FullBlock.text() == "failed to build consensus full block"@,
        CosmosIntegrationError::Io(s).text() == AbciClientError::Io(s).text(),
        CosmosTxPoolError::InvalidEndpoint(s).text() == AbciClientError::InvalidEndpoint(s).text(),
        CosmosTxPoolError::Transport(s).text() == AbciClientError::Transport(s).text(),
        CosmosTxPoolError::GrpcStatus(s).text() == AbciClientError::GrpcStatus(s).text(),
        CosmosTxPoolError::Encode(s).text() == AbciClientError::Encode(s).text(),
        CosmosTxPoolError::Decode(s).text() == AbciClientError::Decode(s).text(),
        CosmosTxPoolError::ProposalRejected.text() == AbciClientError::ProposalRejected.text(),
        CosmosTxPoolError::Io(s).text() == AbciClientError::Io(s).text(),
{
}

} // verus!
