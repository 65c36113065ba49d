//! Which response answers which request.
use vstd::prelude::*;

use crate::abci::error::{labelled, AbciClientError, CosmosIntegrationError};
use crate::abci::messages::{
    CheckTxResponse, CommitResponse, FinalizeBlockResponse, InfoResponse, InitChainResponse,
    OpaqueMessage, PrepareProposalResponse, ProcessProposalResponse, QueryResponse, Response,
};

verus! {

/// Whether `e` is the client's error for a response that does not answer `method`.
pub open spec fn is_mismatch(e: AbciClientError, method: Seq<char>) -> bool {
    e matches AbciClientError::Transport(t) && t@ == "unexpected response type for "@ + method
}

fn mismatch(method: &str) -> (e: AbciClientError)
    ensures
        is_mismatch(e, method@),
{
    AbciClientError::Transport(labelled("unexpected response type for ", method))
}

/// The answer to InitChain.
pub fn init_chain(response: Response) -> (r: Result<InitChainResponse, AbciClientError>)
    ensures
        match response {
            Response::InitChain(v) => r == Ok::<InitChainResponse, AbciClientError>(v),
            _ => r matches Err(e) && is_mismatch(e, "InitChain"@),
        },
{
    match response {
        Response::InitChain(v) => Ok(v),
        _ => Err(mismatch("InitChain")),
    }
}

/// The answer to PrepareProposal.
pub fn prepare_proposal(response: Response) -> (r: Result<
    PrepareProposalResponse,
    AbciClientError,
>)
    ensures
        match response {
            Response::PrepareProposal(v) => r == Ok::<PrepareProposalResponse, AbciClientError>(v),
            _ => r matches Err(e) && is_mismatch(e, "PrepareProposal"@),
        },
{
    match response {
        Response::PrepareProposal(v) => Ok(v),
        _ => Err(mismatch("PrepareProposal")),
    }
}

/// The answer to ProcessProposal.
pub fn process_proposal(response: Response) -> (r: Result<
    ProcessProposalResponse,
    AbciClientError,
>)
    ensures
        match response {
            Response::ProcessProposal(v) => r == Ok::<ProcessProposalResponse, AbciClientError>(v),
            _ => r matches Err(e) && is_mismatch(e, "ProcessProposal"@),
        },
{
    match response {
        Response::ProcessProposal(v) => Ok(v),
        _ => Err(mismatch("ProcessProposal")),
    }
}

/// The answer to ExtendVote.
pub fn extend_vote(response: Response) -> (r: Result<OpaqueMessage, AbciClientError>)
    ensures
        match response {
            Response::ExtendVote(v) => r == Ok::<OpaqueMessage, AbciClientError>(v),
            _ => r matches Err(e) && is_mismatch(e, "ExtendVote"@),
        },
{
    match response {
        Response::ExtendVote(v) => Ok(v),
        _ => Err(mismatch("ExtendVote")),
    }
}

/// The answer to VerifyVoteExtension.
pub fn verify_vote_extension(response: Response) -> (r: Result<OpaqueMessage, AbciClientError>)
    ensures
        match response {
            Response::VerifyVoteExtension(v) => r == Ok::<OpaqueMessage, AbciClientError>(v),
            _ => r matches Err(e) && is_mismatch(e, "VerifyVoteExtension"@),
        },
{
    match response {
        Response::VerifyVoteExtension(v) => Ok(v),
        _ => Err(mismatch("VerifyVoteExtension")),
    }
}

/// The answer to FinalizeBlock.
pub fn finalize_block(response: Response) -> (r: Result<FinalizeBlockResponse, AbciClientError>)
    ensures
        match response {
            Response::FinalizeBlock(v) => r == Ok::<FinalizeBlockResponse, AbciClientError>(v),
            _ => r matches Err(e) && is_mismatch(e, "FinalizeBlock"@),
        },
{
    match response {
        Response::FinalizeBlock(v) => Ok(v),
        _ => Err(mismatch("FinalizeBlock")),
    }
}

/// The answer to Commit.
pub fn commit(response: Response) -> (r: Result<CommitResponse, AbciClientError>)
    ensures
        match response {
            Response::Commit(v) => r == Ok::<CommitResponse, AbciClientError>(v),
            _ => r matches Err(e) && is_mismatch(e, "Commit"@),
        },
{
    match response {
        Response::Commit(v) => Ok(v),
        _ => Err(mismatch("Commit")),
    }
}

/// The answer to CheckTx.
pub fn check_tx(response: Response) -> (r: Result<CheckTxResponse, AbciClientError>)
    ensures
        match response {
            Response::CheckTx(v) => r == Ok::<CheckTxResponse, AbciClientError>(v),
            _ => r matches Err(e) && is_mismatch(e, "CheckTx"@),
        },
{
    match response {
        Response::CheckTx(v) => Ok(v),
        _ => Err(mismatch("CheckTx")),
    }
}

/// The answer to Flush.
pub fn flush(response: Response) -> (r: Result<(), AbciClientError>)
    ensures
        match response {
            Response::Flush => r is Ok,
            _ => r matches Err(e) && is_mismatch(e, "Flush"@),
        },
{
    match response {
        Response::Flush => Ok(()),
        _ => Err(mismatch("Flush")),
    }
}

/// The answer to Echo.
pub fn echo(response: Response) -> (r: Result<OpaqueMessage, AbciClientError>)
    ensures
        match response {
            Response::Echo(v) => r == Ok::<OpaqueMessage, AbciClientError>(v),
            _ => r matches Err(e) && is_mismatch(e, "Echo"@),
        },
{
    match response {
        Response::Echo(v) => Ok(v),
        _ => Err(mismatch("Echo")),
    }
}

/// The answer to Info.
pub fn info(response: Response) -> (r: Result<InfoResponse, AbciClientError>)
    ensures
        match response {
            Response::Info(v) => r == Ok::<InfoResponse, AbciClientError>(v),
            _ => r matches Err(e) && is_mismatch(e, "Info"@),
        },
{
    match response {
        Response::Info(v) => Ok(v),
        _ => Err(mismatch("Info")),
    }
}

/// The answer to Query.
pub fn query(response: Response) -> (r: Result<QueryResponse, AbciClientError>)
    ensures
        match response {
            Response::Query(v) => r == Ok::<QueryResponse, AbciClientError>(v),
            _ => r matches Err(e) && is_mismatch(e, "Query"@),
        },
{
    match response {
        Response::Query(v) => Ok(v),
        _ => Err(mismatch("Query")),
    }
}

/// The answer to ListSnapshots.
pub fn list_snapshots(response: Response) -> (r: Result<OpaqueMessage, AbciClientError>)
    ensures
        match response {
            Response::ListSnapshots(v) => r == Ok::<OpaqueMessage, AbciClientError>(v),
            _ => r matches Err(e) && is_mismatch(e, "ListSnapshots"@),
        },
{
    match response {
        Response::ListSnapshots(v) => Ok(v),
        _ => Err(mismatch("ListSnapshots")),
    }
}

/// The answer to OfferSnapshot.
pub fn offer_snapshot(response: Response) -> (r: Result<OpaqueMessage, AbciClientError>)
    ensures
        match response {
            Response::OfferSnapshot(v) => r == Ok::<OpaqueMessage, AbciClientError>(v),
            _ => r matches Err(e) && is_mismatch(e, "OfferSnapshot"@),
        },
{
    match response {
        Response::OfferSnapshot(v) => Ok(v),
        _ => Err(mismatch("OfferSnapshot")),
    }
}

/// The answer to LoadSnapshotChunk.
pub fn load_snapshot_chunk(response: Response) -> (r: Result<OpaqueMessage, AbciClientError>)
    ensures
        match response {
            Response::LoadSnapshotChunk(v) => r == Ok::<OpaqueMessage, AbciClientError>(v),
            _ => r matches Err(e) && is_mismatch(e, "LoadSnapshotChunk"@),
        },
{
    match response {
        Response::LoadSnapshotChunk(v) => Ok(v),
        _ => Err(mismatch("LoadSnapshotChunk")),
    }
}

/// The answer to ApplySnapshotChunk.
pub fn apply_snapshot_chunk(response: Response) -> (r: Result<OpaqueMessage, AbciClientError>)
    ensures
        match response {
            Response::ApplySnapshotChunk(v) => r == Ok::<OpaqueMessage, AbciClientError>(v),
            _ => r matches Err(e) && is_mismatch(e, "ApplySnapshotChunk"@),
        },
{
    match response {
        Response::ApplySnapshotChunk(v) => Ok(v),
        _ => Err(mismatch("ApplySnapshotChunk")),
    }
}

/// Whether `e` is a transport failure with this text.
pub open spec fn is_transport(e: CosmosIntegrationError, text: Seq<char>) -> bool {
    e matches CosmosIntegrationError::Transport(t) && t@ == text
}

/// How the integration words a response that does not answer `method`. Three
/// of the methods also tell an empty envelope from a wrong message.
pub open spec fn integration_mismatch(
    response: Response,
    method: Seq<char>,
    detailed: bool,
) -> Seq<char> {
    let base = "unexpected response for "@ + method;
    if !detailed {
        base
    } else if response is Absent {
        base + ": None"@
    } else {
        base + ": Some(\"other\")"@
    }
}

/// The integration's error for a response that does not answer `method`: an
/// exception carries its own text.
pub open spec fn integration_error(
    response: Response,
    method: Seq<char>,
    detailed: bool,
) -> Seq<char> {
    match response {
        Response::Exception { error } => error@,
        _ => integration_mismatch(response, method, detailed),
    }
}

fn refuse(response: Response, method: &str, detailed: bool) -> (e: CosmosIntegrationError)
    ensures
        is_transport(e, integration_error(response, method@, detailed)),
{
    match response {
        Response::Exception { error } => CosmosIntegrationError::Transport(error),
        other => {
            let base: String = labelled("unexpected response for ", method);
            let absent: bool = match other {
                Response::Absent => true,
                _ => false,
            };
            CosmosIntegrationError::Transport(
                if !detailed {
                    base
                } else if absent {
                    base.concat(": None")
                } else {
                    base.concat(": Some(\"other\")")
                },
            )
        },
    }
}

/// The integration's reading of an answer to CheckTx.
pub fn integration_check_tx(response: Response) -> (r: Result<
    CheckTxResponse,
    CosmosIntegrationError,
>)
    ensures
        match response {
            Response::CheckTx(v) => r == Ok::<CheckTxResponse, CosmosIntegrationError>(v),
            _ => r matches Err(e) && is_transport(e, integration_error(response, "CheckTx"@, true)),
        },
{
    match response {
        Response::CheckTx(v) => Ok(v),
        other => Err(refuse(other, "CheckTx", true)),
    }
}

/// The integration's reading of an answer to PrepareProposal.
pub fn integration_prepare_proposal(response: Response) -> (r: Result<
    PrepareProposalResponse,
    CosmosIntegrationError,
>)
    ensures
        match response {
            Response::PrepareProposal(v) => r == Ok::<
                PrepareProposalResponse,
                CosmosIntegrationError,
            >(v),
            _ => r matches Err(e) && is_transport(
                e,
                integration_error(response, "PrepareProposal"@, true),
            ),
        },
{
    match response {
        Response::PrepareProposal(v) => Ok(v),
        other => Err(refuse(other, "PrepareProposal", true)),
    }
}

/// The integration's reading of an answer to ProcessProposal.
pub fn integration_process_proposal(response: Response) -> (r: Result<
    ProcessProposalResponse,
    CosmosIntegrationError,
>)
    ensures
        match response {
            Response::ProcessProposal(v) => r == Ok::<
                ProcessProposalResponse,
                CosmosIntegrationError,
            >(v),
            _ => r matches Err(e) && is_transport(
                e,
                integration_error(response, "ProcessProposal"@, true),
            ),
        },
{
    match response {
        Response::ProcessProposal(v) => Ok(v),
        other => Err(refuse(other, "ProcessProposal", true)),
    }
}

/// The integration's reading of an answer to Info.
pub fn integration_info(response: Response) -> (r: Result<InfoResponse, CosmosIntegrationError>)
    ensures
        match response {
            Response::Info(v) => r == Ok::<InfoResponse, CosmosIntegrationError>(v),
            _ => r matches Err(e) && is_transport(e, integration_error(response, "Info"@, false)),
        },
{
    match response {
        Response::Info(v) => Ok(v),
        other => Err(refuse(other, "Info", false)),
    }
}

/// The integration's reading of an answer to InitChain.
pub fn integration_init_chain(response: Response) -> (r: Result<
    InitChainResponse,
    CosmosIntegrationError,
>)
    ensures
        match response {
            Response::InitChain(v) => r == Ok::<InitChainResponse, CosmosIntegrationError>(v),
            _ => r matches Err(e) && is_transport(
                e,
                integration_error(response, "InitChain"@, false),
            ),
        },
{
    match response {
        Response::InitChain(v) => Ok(v),
        other => Err(refuse(other, "InitChain", false)),
    }
}

/// What to do next while a block is finalised and committed.
pub enum FinalizeCommitAction {
    /// Send a commit request.
    SendCommit,
    /// Both answers are in, or one of them was refused.
    Finish(Result<(FinalizeBlockResponse, CommitResponse), CosmosIntegrationError>),
}

/// Executes a block and persists it: a finalize request, and only after it was
/// answered properly, a commit request.
pub struct FinalizeAndCommit {
    finalized: Option<FinalizeBlockResponse>,
}

impl FinalizeAndCommit {
    /// The answer to the finalize request, once it is in.
    pub closed spec fn finalized(self) -> Option<FinalizeBlockResponse> {
        self.finalized
    }

    /// Nothing is answered yet.
    pub fn new() -> (s: Self)
        ensures
            s.finalized() is None,
    {
        FinalizeAndCommit { finalized: None }
    }

    /// An answer arrived: to the finalize request first, then to the commit.
    pub fn answered(&mut self, response: Response) -> (action: FinalizeCommitAction)
        ensures
            match old(self).finalized() {
                None => match response {
                    Response::FinalizeBlock(v) => {
                        &&& action is SendCommit
                        &&& final(self).finalized() == Some(v)
                    },
                    _ => {
                        &&& final(self).finalized() is None
                        &&& action matches FinalizeCommitAction::Finish(Err(e)) && is_transport(
                            e,
                            integration_error(response, "FinalizeBlock"@, false),
                        )
                    },
                },
                Some(f) => {
                    &&& final(self).finalized() is None
                    &&& match response {
                        Response::Commit(c) => action == FinalizeCommitAction::Finish(Ok((f, c))),
                        _ => action matches FinalizeCommitAction::Finish(Err(e)) && is_transport(
                            e,
                            integration_error(response, "Commit"@, false),
                        ),
                    }
                },
            },
    {
        match self.finalized.take() {
            None => match response {
                Response::FinalizeBlock(v) => {
                    self.finalized = Some(v);
                    FinalizeCommitAction::SendCommit
                },
                other => FinalizeCommitAction::Finish(Err(refuse(other, "FinalizeBlock", false))),
            },
            Some(f) => match response {
                Response::Commit(c) => FinalizeCommitAction::Finish(Ok((f, c))),
                other => FinalizeCommitAction::Finish(Err(refuse(other, "Commit", false))),
            },
        }
    }

    /// A request failed on its way: the whole operation fails with its error.
    pub fn failed(&mut self, error: CosmosIntegrationError) -> (action: FinalizeCommitAction)
        ensures
            final(self).finalized() is None,
            action == FinalizeCommitAction::Finish(Err(error)),
    {
        self.finalized = None;
        FinalizeCommitAction::Finish(Err(error))
    }
}

/// An exception of the application is told in its own words; any other answer
/// is told by the method that it does not answer, and where details are wanted,
/// by whether there was an answer at all.
pub proof fn exceptions_are_told_in_their_words(
    response: Response,
    method: Seq<char>,
    detailed: bool,
)
    ensures
        response matches Response::Exception { error } ==> integration_error(
            response,
            method,
            detailed,
        ) == error@,
        response !is Exception && !detailed ==> integration_error(response, method, detailed)
            == "unexpected response for "@ + method,
        response is Absent && detailed ==> integration_error(response, method, detailed)
            == "unexpected response for "@ + method + ": None"@,
        response !is Exception && response !is Absent && detailed ==> integration_error(
            response,
            method,
            detailed,
        ) == "unexpected response for "@ + method + ": Some(\"other\")"@,
{
}

/// Both sides tell a failure as one of the transport, in the given words.
pub proof fn mismatches_are_transport_errors(
    e: AbciClientError,
    f: CosmosIntegrationError,
    words: Seq<char>,
)
    ensures
        is_mismatch(e, words) <==> (e matches AbciClientError::Transport(t) && t@
            == "unexpected response type for "@ + words),
        is_transport(f, words) <==> (f matches CosmosIntegrationError::Transport(t) && t@ == words),
{
}

} // verus!
