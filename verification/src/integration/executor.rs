//! The executor behind the transaction pool commands of consensus.
//!
//! Calls to the application and file writes are done by the caller: each step
//! says what to do next and is told how it went.
use std::collections::{BTreeMap, VecDeque};

use bytes::Bytes;
use vstd::prelude::*;

use crate::abci::error::CosmosIntegrationError;
use crate::abci::messages::{
    CommitResponse, FinalizeBlockRequest, FinalizeBlockResponse, InfoResponse,
    PrepareProposalRequest,
};
use crate::abci::requests;
use crate::block_policy::CosmosBlock;
use crate::commit_store;
use crate::commit_store::{CosmosCommitStore, StoredFile, SyncAction, GENESIS_SEQ_NUM};
use crate::cosmos_types;
use crate::cosmos_types::{CosmosFinalizedHeader, MAX_COSMOS_TXS_PER_BLOCK};
use crate::integration::policy;
use crate::integration::policy::COSMOS_MAX_AHEAD_BLOCKS;
use crate::sorted_map;
use crate::text;
use crate::txpool::forward;
use crate::txpool::forward::{BatchCounts, ForwardEgress, TxIdSet};
use crate::txpool::mempool;
use crate::txpool::mempool::{CosmosTxId, Entry, IndexedCosmosMempool};
use crate::txpool::proposal;
use crate::txpool::proposal::{Proposal, ProposalRequest};
use crate::txpool::raw;

verus! {

broadcast use vstd::std_specs::btree::group_btree_axioms;

/// Where the application of committed blocks stands.
pub enum DrainStage {
    /// Nothing is going on.
    Idle,
    /// The application was asked where it stands, to level the store with it.
    Syncing,
    /// The file of this header is being written to level the store.
    SyncWriting(CosmosFinalizedHeader),
    /// The application was asked where it stands, for this block.
    Asking(CosmosBlock),
    /// The application is executing this block.
    Finalizing(CosmosBlock),
    /// The file of this block's header is being written; `executed` says
    /// whether the application was told to execute the block.
    Writing { block: CosmosBlock, header: CosmosFinalizedHeader, executed: bool },
}

/// What to do next while committed blocks are applied.
pub enum DrainAction {
    /// Ask the application where it stands.
    AskInfo,
    /// Execute and commit a block.
    Finalize(FinalizeBlockRequest),
    /// Write a file of the store.
    Write(StoredFile),
    /// Nothing more can be done now.
    Done,
}

/// A block that the application executed and that is on disk.
#[derive(Clone, Copy, Debug, PartialEq, Eq, Structural)]
pub struct CommitReport {
    pub height: u64,
    pub txs: usize,
}

/// A proposal that waits for the application's choice.
pub struct AwaitedProposal<C> {
    pub request: ProposalRequest<C>,
    /// The pending transactions that were offered to the application.
    pub taken: Vec<(CosmosTxId, Bytes)>,
}

/// How a request for a block starts.
pub enum ProposalStart<C> {
    /// Consensus is too far ahead of the application: no proposal.
    Skip,
    /// The application is at its genesis state and is not asked: pending
    /// transactions fill the block, and consensus has to be woken.
    Bypassed,
    /// Ask the application to choose among pending transactions, and go on with
    /// [`CosmosTxPoolExecutor::finish_proposal`].
    Prepare { prepare: PrepareProposalRequest, awaited: AwaitedProposal<C> },
}

/// What became of transactions that other nodes sent.
#[derive(Clone, Copy, Debug, PartialEq, Eq, Structural)]
pub struct InsertCounts {
    pub accepted: usize,
    pub check_reject: usize,
    pub duplicates: usize,
}

/// What polling the local ingress channel gave.
pub enum IngressPoll {
    /// A batch of checked transactions.
    Batch(Vec<Bytes>),
    /// The channel is closed.
    Closed,
    /// Nothing has come.
    Pending,
}

/// The state of the transaction pool executor.
pub struct CosmosTxPoolExecutor<C> {
    pub endpoint: String,
    pub pending_txs: IndexedCosmosMempool,
    pub ingress_open: bool,
    pub forward_egress: ForwardEgress,
    pub pending_app_commits: BTreeMap<u64, CosmosBlock>,
    pub events: VecDeque<Proposal<C>>,
    pub store: CosmosCommitStore,
    pub stage: DrainStage,
}

/// The blocks above a height.
pub open spec fn above(pending: Map<u64, CosmosBlock>, height: u64) -> Map<u64, CosmosBlock> {
    Map::new(|k: u64| pending.contains_key(k) && k > height, |k: u64| pending[k])
}

/// The handles of the transactions in blocks up to a height.
pub open spec fn ids_up_to(pending: Map<u64, CosmosBlock>, height: u64) -> Set<Seq<u8>> {
    Set::new(
        |id: Seq<u8>|
            exists|k: u64| #[trigger]
                pending.contains_key(k) && k <= height && mempool::tx_ids(
                    pending[k].body@,
                ).contains(id),
    )
}

/// Whether a requested block is offered exactly the first `k` pending
/// transactions: as many as the request allows and a body holds.
pub open spec fn is_candidate_count<C>(
    entries: Seq<Entry>,
    request: ProposalRequest<C>,
    k: int,
) -> bool {
    mempool::is_proposal_len(
        entries,
        if request.tx_limit > cosmos_types::MAX_COSMOS_TXS_PER_BLOCK {
            cosmos_types::MAX_COSMOS_TXS_PER_BLOCK
        } else {
            request.tx_limit
        },
        if request.proposal_byte_limit > usize::MAX {
            usize::MAX
        } else {
            request.proposal_byte_limit as usize
        },
        k,
    )
}

impl<C> AwaitedProposal<C> {
    /// The transactions carry their own handles.
    pub open spec fn wf(self) -> bool {
        mempool::digested(mempool::entries_of(self.taken@))
    }
}

/// Pending blocks with some more; the last one of a height wins.
pub open spec fn with_blocks(pending: Map<u64, CosmosBlock>, blocks: Seq<CosmosBlock>) -> Map<
    u64,
    CosmosBlock,
>
    decreases blocks.len(),
{
    if blocks.len() == 0 {
        pending
    } else {
        with_blocks(pending, blocks.drop_last()).insert(blocks.last().seq_num, blocks.last())
    }
}

impl<C> CosmosTxPoolExecutor<C> {
    /// The height of the application as the node knows it.
    pub open spec fn latest(self) -> u64 {
        commit_store::latest_height(self.store@)
    }

    /// Pending blocks are filed under their own heights, a block that is being
    /// applied is the next one and no longer pending, and a header that levels
    /// the store is that of the next height.
    pub open spec fn wf(self) -> bool {
        &&& self.pending_txs.wf()
        &&& self.store.wf()
        &&& forall|k: u64| #[trigger]
            self.pending_app_commits@.contains_key(k) ==> self.pending_app_commits@[k].seq_num == k
        &&& self.staged() matches Some(block) ==> {
            &&& block.seq_num == self.latest() + 1
            &&& !self.pending_app_commits@.contains_key(block.seq_num)
        }
        &&& self.stage matches DrainStage::Writing { block, header, executed } ==> header@.height
            == block.seq_num
        &&& self.stage matches DrainStage::SyncWriting(header) ==> header@.height == self.latest()
            + 1
    }

    /// The block that is being applied.
    pub open spec fn staged(self) -> Option<CosmosBlock> {
        match self.stage {
            DrainStage::Asking(block) => Some(block),
            DrainStage::Finalizing(block) => Some(block),
            DrainStage::Writing { block, .. } => Some(block),
            _ => None,
        }
    }

    /// What the application of blocks leaves alone.
    pub open spec fn untouched_by_drain(self, other: Self) -> bool {
        &&& self.endpoint == other.endpoint
        &&& self.ingress_open == other.ingress_open
        &&& self.forward_egress == other.forward_egress
        &&& self.events == other.events
        &&& self.pending_txs.limit() == other.pending_txs.limit()
    }

    /// An executor on a store, without pending transactions or blocks.
    pub fn new(endpoint: String, store: CosmosCommitStore, ingress_open: bool) -> (executor: Self)
        requires
            store.wf(),
        ensures
            executor.wf(),
            executor.endpoint == endpoint,
            executor.store == store,
            executor.ingress_open == ingress_open,
            executor.pending_txs@.len() == 0,
            executor.pending_txs.limit() == 0,
            executor.forward_egress@.len() == 0,
            executor.pending_app_commits@ == Map::<u64, CosmosBlock>::empty(),
            executor.events@.len() == 0,
            executor.stage is Idle,
    {
        CosmosTxPoolExecutor {
            endpoint,
            pending_txs: IndexedCosmosMempool::with_max_txs(0),
            ingress_open,
            forward_egress: ForwardEgress::new(),
            pending_app_commits: BTreeMap::new(),
            events: VecDeque::new(),
            store,
            stage: DrainStage::Idle,
        }
    }

    /// Starts a proposal with pending transactions up to the limits of the
    /// request. They leave the pool: while the application is at its genesis
    /// state they are the block, afterwards the application chooses among them.
    pub fn start_proposal(&mut self, request: ProposalRequest<C>) -> (start: ProposalStart<C>)
        requires
            old(self).wf(),
            policy::max_allowed(old(self).latest()) <= u64::MAX,
        ensures
            final(self).wf(),
            final(self).endpoint == old(self).endpoint,
            final(self).pending_txs.limit() == old(self).pending_txs.limit(),
            final(self).ingress_open == old(self).ingress_open,
            final(self).forward_egress == old(self).forward_egress,
            final(self).pending_app_commits == old(self).pending_app_commits,
            final(self).store == old(self).store,
            final(self).stage == old(self).stage,
            if request.seq_num > policy::max_allowed(old(self).latest()) {
                &&& start is Skip
                &&& final(self).pending_txs == old(self).pending_txs
                &&& final(self).events == old(self).events
            } else {
                exists|k: int|
                    {
                        &&& #[trigger] is_candidate_count(old(self).pending_txs@, request, k)
                        &&& final(self).pending_txs@ == old(self).pending_txs@.skip(k)
                        &&& if old(self).latest() == GENESIS_SEQ_NUM {
                            &&& start is Bypassed
                            &&& final(self).events@.len() == old(self).events@.len() + 1
                            &&& final(self).events@.drop_last() == old(self).events@
                            &&& proposal::is_proposal_for(
                                final(self).events@.last(),
                                request,
                                mempool::raws_of(old(self).pending_txs@.take(k)),
                            )
                        } else {
                            &&& final(self).events == old(self).events
                            &&& start matches ProposalStart::Prepare { prepare, awaited } && {
                                &&& awaited.wf()
                                &&& awaited.request == request
                                &&& mempool::entries_of(awaited.taken@)
                                    == old(self).pending_txs@.take(k)
                                &&& proposal::is_prepare_for(
                                    prepare,
                                    request,
                                    mempool::raws_of(old(self).pending_txs@.take(k)),
                                )
                            }
                        }
                    }
            },
    {
        let latest: u64 = self.store.latest_or_genesis();
        if request.seq_num > latest + COSMOS_MAX_AHEAD_BLOCKS {
            return ProposalStart::Skip;
        }
        let byte_limit: usize = if request.proposal_byte_limit > usize::MAX as u64 {
            usize::MAX
        } else {
            request.proposal_byte_limit as usize
        };
        let tx_limit: usize = if request.tx_limit > MAX_COSMOS_TXS_PER_BLOCK {
            MAX_COSMOS_TXS_PER_BLOCK
        } else {
            request.tx_limit
        };
        let (candidates, taken) = self.pending_txs.drain_for_proposal(tx_limit, byte_limit);
        assert(is_candidate_count(old(self).pending_txs@, request, taken@.len() as int));
        if latest == GENESIS_SEQ_NUM {
            self.events.push_back(proposal::propose(request, candidates));
            assert(self.events@.drop_last() =~= old(self).events@);
            return ProposalStart::Bypassed;
        }
        let prepare: PrepareProposalRequest = proposal::prepare_request(&request, candidates);
        ProposalStart::Prepare { prepare, awaited: AwaitedProposal { request, taken } }
    }

    /// Finishes a proposal with the transactions that the application chose.
    /// Candidates that it left out go back to the front of the pool. All of them
    /// go back in their order where it failed, and where it chose more than a
    /// body holds, so that the block is empty. Tells whether consensus has to be
    /// woken.
    pub fn finish_proposal(
        &mut self,
        awaited: AwaitedProposal<C>,
        prepared: Result<Vec<Vec<u8>>, CosmosIntegrationError>,
    ) -> (wake: bool)
        requires
            old(self).wf(),
            awaited.wf(),
        ensures
            final(self).wf(),
            final(self).endpoint == old(self).endpoint,
            final(self).pending_txs.limit() == old(self).pending_txs.limit(),
            final(self).ingress_open == old(self).ingress_open,
            final(self).forward_egress == old(self).forward_egress,
            final(self).pending_app_commits == old(self).pending_app_commits,
            final(self).store == old(self).store,
            final(self).stage == old(self).stage,
            match prepared {
                Ok(txs) => {
                    &&& wake
                    &&& final(self).events@.len() == old(self).events@.len() + 1
                    &&& final(self).events@.drop_last() == old(self).events@
                    &&& proposal::is_proposal_for(
                        final(self).events@.last(),
                        awaited.request,
                        cosmos_types::tx_views(txs@),
                    )
                    &&& final(self).pending_txs@ == if txs@.len() <= MAX_COSMOS_TXS_PER_BLOCK {
                        mempool::requeued(
                            old(self).pending_txs@,
                            proposal::not_among(
                                mempool::raws_of(mempool::entries_of(awaited.taken@)),
                                cosmos_types::tx_views(txs@),
                            ),
                        )
                    } else {
                        mempool::restored(
                            old(self).pending_txs@,
                            mempool::entries_of(awaited.taken@),
                        )
                    }
                },
                Err(_) => {
                    &&& !wake
                    &&& final(self).events@ == old(self).events@
                    &&& final(self).pending_txs@ == mempool::restored(
                        old(self).pending_txs@,
                        mempool::entries_of(awaited.taken@),
                    )
                },
            },
    {
        match prepared {
            Ok(txs) => {
                if txs.len() <= MAX_COSMOS_TXS_PER_BLOCK {
                    let rest: Vec<Vec<u8>> = proposal::left_out(
                        mempool::raw_txs(&awaited.taken),
                        &txs,
                    );
                    self.pending_txs.requeue_front_raw_in_candidate_order(&rest);
                } else {
                    self.pending_txs.restore_taken_front(awaited.taken);
                }
                self.events.push_back(proposal::propose(awaited.request, txs));
                assert(self.events@.drop_last() =~= old(self).events@);
                true
            },
            Err(_) => {
                self.pending_txs.restore_taken_front(awaited.taken);
                false
            },
        }
    }

    /// Takes in transactions that other nodes sent; `codes` are the outcomes of
    /// the application's checks. They are not forwarded again.
    pub fn insert_forwarded_txs(&mut self, txs: Vec<Bytes>, codes: &Vec<Option<u32>>) -> (r: (
        InsertCounts,
        bool,
    ))
        requires
            old(self).wf(),
            txs@.len() == codes@.len(),
        ensures
            final(self).wf(),
            final(self).untouched_by_drain(*old(self)),
            final(self).pending_app_commits == old(self).pending_app_commits,
            final(self).store == old(self).store,
            final(self).stage == old(self).stage,
            ({
                let admitted = forward::admitted_txs(raw::raws(txs@), codes@);
                let t = forward::batch_of(
                    forward::BatchState {
                        entries: old(self).pending_txs@,
                        forwarded: Seq::empty(),
                        accepted: 0,
                        duplicates: 0,
                        rejected_full: 0,
                    },
                    old(self).pending_txs.limit(),
                    Set::empty(),
                    false,
                    admitted,
                );
                &&& final(self).pending_txs@ == t.entries
                &&& r.0.accepted == t.accepted
                &&& r.0.duplicates == t.duplicates + t.rejected_full
                &&& r.0.check_reject == txs@.len() - admitted.len()
                &&& r.1 == (t.accepted > 0)
            }),
    {
        let n: usize = txs.len();
        let ghost all = raw::raws(txs@);
        let kept: Vec<Bytes> = forward::keep_admitted(txs, codes);
        let ghost admitted = raw::raws(kept@);
        proof {
            lemma_admitted_len(all, codes@);
            assert(admitted.len() == kept@.len());
        }
        let check_reject: usize = n - kept.len();
        let none: TxIdSet = TxIdSet::new();
        let mut unused: ForwardEgress = ForwardEgress::new();
        proof {
            forward::batch_is_counted(
                forward::BatchState {
                    entries: self.pending_txs@,
                    forwarded: Seq::empty(),
                    accepted: 0,
                    duplicates: 0,
                    rejected_full: 0,
                },
                self.pending_txs.limit(),
                Set::empty(),
                false,
                admitted,
            );
        }
        let counts: BatchCounts = forward::apply_checked_batch(
            &mut self.pending_txs,
            &none,
            &mut unused,
            false,
            kept,
        );
        (
            InsertCounts {
                accepted: counts.accepted,
                check_reject,
                duplicates: counts.duplicates + counts.rejected_full,
            },
            counts.accepted > 0,
        )
    }

    /// Takes in local transactions that passed the application's check, and
    /// queues the accepted ones for other nodes. Tells whether consensus has to
    /// be woken.
    pub fn apply_checked_ingress_batch(&mut self, txs: Vec<Bytes>) -> (wake: bool)
        requires
            old(self).wf(),
        ensures
            final(self).wf(),
            final(self).endpoint == old(self).endpoint,
            final(self).ingress_open == old(self).ingress_open,
            final(self).events == old(self).events,
            final(self).pending_app_commits == old(self).pending_app_commits,
            final(self).store == old(self).store,
            final(self).stage == old(self).stage,
            final(self).pending_txs.limit() == old(self).pending_txs.limit(),
            ({
                let t = forward::batch_of(
                    forward::BatchState {
                        entries: old(self).pending_txs@,
                        forwarded: old(self).forward_egress@,
                        accepted: 0,
                        duplicates: 0,
                        rejected_full: 0,
                    },
                    old(self).pending_txs.limit(),
                    Set::empty(),
                    true,
                    raw::raws(txs@),
                );
                &&& final(self).pending_txs@ == t.entries
                &&& final(self).forward_egress@ == t.forwarded
                &&& wake == (t.accepted > 0)
            }),
    {
        let none: TxIdSet = TxIdSet::new();
        let counts: BatchCounts = forward::apply_checked_batch(
            &mut self.pending_txs,
            &none,
            &mut self.forward_egress,
            true,
            txs,
        );
        counts.accepted > 0
    }

    /// The first thing to look at when the executor is polled: proposals go
    /// out before anything else.
    pub fn poll_event(&mut self) -> (r: Option<Proposal<C>>)
        requires
            old(self).wf(),
        ensures
            final(self).wf(),
            final(self).endpoint == old(self).endpoint,
            final(self).pending_txs == old(self).pending_txs,
            final(self).ingress_open == old(self).ingress_open,
            final(self).forward_egress == old(self).forward_egress,
            final(self).pending_app_commits == old(self).pending_app_commits,
            final(self).store == old(self).store,
            final(self).stage == old(self).stage,
            match r {
                Some(p) => {
                    &&& old(self).events@.len() > 0
                    &&& p == old(self).events@[0]
                    &&& final(self).events@ == old(self).events@.skip(1)
                },
                None => old(self).events@.len() == 0 && final(self).events@ == old(self).events@,
            },
    {
        let r: Option<Proposal<C>> = self.events.pop_front();
        proof {
            if r is Some {
                assert(self.events@ =~= old(self).events@.skip(1));
            }
        }
        r
    }

    /// The rest of a poll, once no proposal waits: takes in what came from the
    /// local ingress, then hands out one batch to forward. The flag tells
    /// whether to poll again right away.
    pub fn poll_ingress(&mut self, polled: IngressPoll) -> (r: (Option<Vec<Bytes>>, bool))
        requires
            old(self).wf(),
        ensures
            final(self).wf(),
            final(self).endpoint == old(self).endpoint,
            final(self).events == old(self).events,
            final(self).pending_app_commits == old(self).pending_app_commits,
            final(self).store == old(self).store,
            final(self).stage == old(self).stage,
            final(self).pending_txs.limit() == old(self).pending_txs.limit(),
            final(self).ingress_open == (old(self).ingress_open && !(polled is Closed)),
            ({
                let s = forward::BatchState {
                    entries: old(self).pending_txs@,
                    forwarded: old(self).forward_egress@,
                    accepted: 0,
                    duplicates: 0,
                    rejected_full: 0,
                };
                let t = match polled {
                    IngressPoll::Batch(txs) => if old(self).ingress_open {
                        forward::batch_of(
                            s,
                            old(self).pending_txs.limit(),
                            Set::empty(),
                            true,
                            raw::raws(txs@),
                        )
                    } else {
                        s
                    },
                    _ => s,
                };
                &&& final(self).pending_txs@ == t.entries
                &&& match r.0 {
                    Some(batch) => {
                        &&& t.forwarded.len() > 0
                        &&& forward::is_batch_len(t.forwarded, batch@.len() as int)
                        &&& raw::raws(batch@) == t.forwarded.take(batch@.len() as int)
                        &&& final(self).forward_egress@ == t.forwarded.skip(batch@.len() as int)
                    },
                    None => t.forwarded.len() == 0 && final(self).forward_egress@ == t.forwarded,
                }
                &&& r.1 == ((old(self).ingress_open && !(polled is Pending))
                    || final(self).forward_egress@.len() > 0)
            }),
    {
        let mut wake: bool = false;
        if self.ingress_open {
            match polled {
                IngressPoll::Batch(txs) => {
                    let _ = self.apply_checked_ingress_batch(txs);
                    wake = true;
                },
                IngressPoll::Closed => {
                    self.ingress_open = false;
                    wake = true;
                },
                IngressPoll::Pending => {},
            }
        }
        if self.forward_egress.is_empty() {
            return (None, wake);
        }
        let (batch, more) = self.forward_egress.drain_batch();
        (Some(batch), wake || more)
    }

    /// Files committed blocks and starts applying them.
    pub fn block_commit(&mut self, blocks: Vec<CosmosBlock>) -> (action: DrainAction)
        requires
            old(self).wf(),
            old(self).stage is Idle,
        ensures
            final(self).wf(),
            final(self).untouched_by_drain(*old(self)),
            final(self).pending_txs == old(self).pending_txs,
            final(self).store == old(self).store,
            final(self).pending_app_commits@ == with_blocks(
                old(self).pending_app_commits@,
                blocks@,
            ),
            final(self).stage is Syncing,
            action is AskInfo,
    {
        let ghost start = self.pending_app_commits@;
        let mut rest: Vec<CosmosBlock> = blocks;
        let n: usize = rest.len();
        let mut i: usize = 0;
        assert(blocks@.take(0) =~= Seq::<CosmosBlock>::empty());
        assert(rest@ =~= blocks@.skip(0));
        while i < n
            invariant
                n == blocks@.len(),
                i <= n,
                rest@ == blocks@.skip(i as int),
                start == old(self).pending_app_commits@,
                self.wf(),
                self.stage is Idle,
                self.untouched_by_drain(*old(self)),
                self.pending_txs == old(self).pending_txs,
                self.store == old(self).store,
                self.pending_app_commits@ == with_blocks(start, blocks@.take(i as int)),
            decreases n - i,
        {
            assert(blocks@.take(i + 1).drop_last() =~= blocks@.take(i as int));
            let block: CosmosBlock = rest.remove(0);
            assert(block == blocks@[i as int]);
            assert(rest@ =~= blocks@.skip(i + 1));
            self.pending_app_commits.insert(block.seq_num, block);
            i = i + 1;
        }
        assert(blocks@.take(n as int) =~= blocks@);
        self.stage = DrainStage::Syncing;
        DrainAction::AskInfo
    }

    /// Drops pending blocks that are on disk already, with their transactions.
    fn flush_stale_pending_app_commits(&mut self)
        requires
            old(self).wf(),
            old(self).stage is Idle,
        ensures
            final(self).wf(),
            final(self).untouched_by_drain(*old(self)),
            final(self).store == old(self).store,
            final(self).stage is Idle,
            final(self).pending_app_commits@ == above(
                old(self).pending_app_commits@,
                old(self).latest(),
            ),
            final(self).pending_txs@ == mempool::keep_others(
                old(self).pending_txs@,
                ids_up_to(old(self).pending_app_commits@, old(self).latest()),
            ),
    {
        let latest: u64 = self.store.latest_or_genesis();
        let ghost pending = self.pending_app_commits@;
        let ghost pool = self.pending_txs@;
        let ghost mut gone: Set<Seq<u8>> = Set::empty();
        let keys: Vec<u64> = sorted_map::keys_of(&self.pending_app_commits);
        let mut i: usize = 0;
        proof {
            mempool::lemma_keep_all(pool);
        }
        while i < keys.len()
            invariant
                i <= keys@.len(),
                latest == old(self).latest(),
                pending == old(self).pending_app_commits@,
                pool == old(self).pending_txs@,
                sorted_map::lists_keys(keys@, pending),
                keys@.no_duplicates(),
                self.wf(),
                self.stage is Idle,
                self.untouched_by_drain(*old(self)),
                self.store == old(self).store,
                forall|k: u64| #[trigger]
                    self.pending_app_commits@.contains_key(k) <==> pending.contains_key(k) && !(k
                        <= latest && keys@.take(i as int).contains(k)),
                forall|k: u64| #[trigger]
                    self.pending_app_commits@.contains_key(k) ==> self.pending_app_commits@[k]
                        == pending[k],
                self.pending_txs@ == mempool::keep_others(pool, gone),
                forall|id: Seq<u8>| #[trigger]
                    gone.contains(id) <==> exists|k: u64| #[trigger]
                        pending.contains_key(k) && k <= latest && keys@.take(i as int).contains(k)
                            && mempool::tx_ids(pending[k].body@).contains(id),
            decreases keys@.len() - i,
        {
            let key: u64 = keys[i];
            let ghost seen = keys@.take(i as int);
            let ghost next = keys@.take(i + 1);
            proof {
                assert(keys@.contains(key));
                assert(pending.contains_key(key));
                assert(next =~= seen.push(key));
                assert(!seen.contains(key)) by {
                    if seen.contains(key) {
                        let j = choose|j: int| 0 <= j < seen.len() && seen[j] == key;
                        assert(keys@[j] == keys@[i as int]);
                    }
                }
                assert forall|k: u64| next.contains(k) <==> seen.contains(k) || k == key by {
                    if seen.contains(k) {
                        let j = choose|j: int| 0 <= j < seen.len() && seen[j] == k;
                        assert(next[j] == k);
                    }
                    if k == key {
                        assert(next[i as int] == k);
                    }
                    if next.contains(k) {
                        let j = choose|j: int| 0 <= j < next.len() && next[j] == k;
                        if j < i {
                            assert(seen[j] == k);
                        }
                    }
                }
            }
            if key <= latest {
                assert(self.pending_app_commits@.contains_key(key));
                let block: CosmosBlock = self.pending_app_commits.remove(&key).unwrap();
                assert(block == pending[key]);
                self.pending_txs.purge(block.body.txs());
                proof {
                    let ids = mempool::tx_ids(pending[key].body@);
                    mempool::lemma_keep_twice(pool, gone, ids);
                    let before = gone;
                    gone = gone.union(ids);
                    assert forall|id: Seq<u8>| #[trigger] gone.contains(id) <==> exists|k: u64|
                     #[trigger]
                        pending.contains_key(k) && k <= latest && next.contains(k)
                            && mempool::tx_ids(pending[k].body@).contains(id) by {
                        if before.contains(id) {
                            let k = choose|k: u64| #[trigger]
                                pending.contains_key(k) && k <= latest && seen.contains(k)
                                    && mempool::tx_ids(pending[k].body@).contains(id);
                            assert(pending.contains_key(k) && next.contains(k));
                        }
                        if ids.contains(id) {
                            assert(pending.contains_key(key) && next.contains(key));
                        }
                    }
                }
            } else {
                proof {
                    assert forall|id: Seq<u8>| #[trigger] gone.contains(id) <==> exists|k: u64|
                     #[trigger]
                        pending.contains_key(k) && k <= latest && next.contains(k)
                            && mempool::tx_ids(pending[k].body@).contains(id) by {
                        if gone.contains(id) {
                            let k = choose|k: u64| #[trigger]
                                pending.contains_key(k) && k <= latest && seen.contains(k)
                                    && mempool::tx_ids(pending[k].body@).contains(id);
                            assert(pending.contains_key(k) && next.contains(k));
                        }
                    }
                }
            }
            i = i + 1;
        }
        proof {
            assert(keys@.take(i as int) =~= keys@);
            assert(self.pending_app_commits@ =~= above(pending, latest));
            assert(gone =~= ids_up_to(pending, latest)) by {
                assert forall|id: Seq<u8>|
                    gone.contains(id) <==> ids_up_to(pending, latest).contains(id) by {
                    if ids_up_to(pending, latest).contains(id) {
                        let k = choose|k: u64| #[trigger]
                            pending.contains_key(k) && k <= latest && mempool::tx_ids(
                                pending[k].body@,
                            ).contains(id);
                        assert(pending.contains_key(k) && keys@.contains(k));
                    }
                }
            }
        }
    }

    /// Turns to the next block: stale ones are dropped first.
    fn advance(&mut self) -> (action: DrainAction)
        requires
            old(self).wf(),
            old(self).stage is Idle,
        ensures
            advanced(*old(self), *final(self), action),
    {
        self.flush_stale_pending_app_commits();
        let latest: u64 = self.store.latest_or_genesis();
        if latest == u64::MAX {
            return DrainAction::Done;
        }
        let ghost fresh = self.pending_app_commits@;
        match self.pending_app_commits.remove(&(latest + 1)) {
            Some(block) => {
                self.stage = DrainStage::Asking(block);
                DrainAction::AskInfo
            },
            None => {
                assert(self.pending_app_commits@ =~= fresh);
                DrainAction::Done
            },
        }
    }
}

/// What turning to the next block does: blocks up to the application's height
/// are dropped with their transactions; if the block right above that height
/// is pending, it is taken up.
pub open spec fn advanced<C>(
    before: CosmosTxPoolExecutor<C>,
    after: CosmosTxPoolExecutor<C>,
    action: DrainAction,
) -> bool {
    let fresh = above(before.pending_app_commits@, before.latest());
    let next = before.latest() + 1;
    &&& after.wf()
    &&& after.untouched_by_drain(before)
    &&& after.store == before.store
    &&& after.pending_txs@ == mempool::keep_others(
        before.pending_txs@,
        ids_up_to(before.pending_app_commits@, before.latest()),
    )
    &&& if next <= u64::MAX && fresh.contains_key(next as u64) {
        &&& action is AskInfo
        &&& after.stage == DrainStage::Asking(fresh[next as u64])
        &&& after.pending_app_commits@ == fresh.remove(next as u64)
    } else {
        &&& action is Done
        &&& after.stage is Idle
        &&& after.pending_app_commits@ == fresh
    }
}

proof fn lemma_admitted_len(txs: Seq<Seq<u8>>, codes: Seq<Option<u32>>)
    ensures
        forward::admitted_txs(txs, codes).len() <= txs.len(),
    decreases txs.len(),
{
    if txs.len() > 0 {
        lemma_admitted_len(txs.drop_last(), codes);
    }
}

/// What giving up on a block for now does: it is pending again, and nothing
/// else changes.
pub open spec fn given_up<C>(
    before: CosmosTxPoolExecutor<C>,
    after: CosmosTxPoolExecutor<C>,
    block: CosmosBlock,
    action: DrainAction,
) -> bool {
    &&& after.wf()
    &&& after.untouched_by_drain(before)
    &&& after.store == before.store
    &&& after.pending_txs == before.pending_txs
    &&& after.pending_app_commits@ == before.pending_app_commits@.insert(block.seq_num, block)
    &&& after.stage is Idle
    &&& action is Done
}

/// Whether `after` is `before` at another stage.
pub open spec fn only_stage_changed<C>(
    before: CosmosTxPoolExecutor<C>,
    after: CosmosTxPoolExecutor<C>,
) -> bool {
    &&& after.wf()
    &&& after.untouched_by_drain(before)
    &&& after.store == before.store
    &&& after.pending_txs == before.pending_txs
    &&& after.pending_app_commits == before.pending_app_commits
}

/// An executor as it is between two blocks.
pub open spec fn at_rest<C>(e: CosmosTxPoolExecutor<C>) -> CosmosTxPoolExecutor<C> {
    CosmosTxPoolExecutor { stage: DrainStage::Idle, ..e }
}

/// What writing the header of the next height does while the store is
/// levelled: the header is in the store, and the application is asked again.
pub open spec fn levelled<C>(
    before: CosmosTxPoolExecutor<C>,
    after: CosmosTxPoolExecutor<C>,
    header: CosmosFinalizedHeader,
) -> bool {
    &&& after.wf()
    &&& after.untouched_by_drain(before)
    &&& after.pending_txs == before.pending_txs
    &&& after.pending_app_commits == before.pending_app_commits
    &&& after.store@ == before.store@.insert(header@.height, header@)
    &&& after.stage is Syncing
}

/// Whether an action writes the file of a header.
pub open spec fn writes(action: DrainAction, header: cosmos_types::FinalizedHeaderView) -> bool {
    action matches DrainAction::Write(file) && (file.name@, file.bytes@) == commit_store::file_of(
        header,
    )
}

impl<C> CosmosTxPoolExecutor<C> {
    fn take_stage(&mut self) -> (stage: DrainStage)
        ensures
            stage == old(self).stage,
            *final(self) == at_rest(*old(self)),
    {
        let mut stage = DrainStage::Idle;
        core::mem::swap(&mut stage, &mut self.stage);
        stage
    }

    fn give_up(&mut self, block: CosmosBlock) -> (action: DrainAction)
        requires
            old(self).wf(),
            old(self).stage is Idle,
        ensures
            given_up(*old(self), *final(self), block, action),
    {
        self.pending_app_commits.insert(block.seq_num, block);
        DrainAction::Done
    }

    /// The application told where it stands, to level the store with it: one
    /// block behind, the store catches up; otherwise the blocks are taken up.
    pub fn sync_informed(&mut self, info: Result<InfoResponse, CosmosIntegrationError>) -> (action:
        DrainAction)
        requires
            old(self).wf(),
            old(self).stage is Syncing,
        ensures
            drain_step(*old(self), *final(self)),
            match info {
                Ok(i) => if commit_store::remote_height(i) == old(self).latest() + 1 {
                    &&& only_stage_changed(*old(self), *final(self))
                    &&& final(self).stage matches DrainStage::SyncWriting(h) && h@
                        == cosmos_types::bare_header(
                        commit_store::remote_height(i),
                        i.last_block_app_hash@,
                    ) && writes(action, h@)
                } else {
                    advanced(at_rest(*old(self)), *final(self), action)
                },
                Err(_) => advanced(at_rest(*old(self)), *final(self), action),
            },
    {
        let _ = self.take_stage();
        match info {
            Ok(i) => match self.store.sync_step(&i) {
                SyncAction::Append(header) => {
                    let file: StoredFile = CosmosCommitStore::file_for(&header);
                    self.stage = DrainStage::SyncWriting(header);
                    DrainAction::Write(file)
                },
                _ => self.advance(),
            },
            Err(_) => self.advance(),
        }
    }

    /// The file that levels the store was written, or not.
    pub fn sync_written(&mut self, written: Result<(), String>) -> (action: DrainAction)
        requires
            old(self).wf(),
            old(self).stage is SyncWriting,
        ensures
            drain_step(*old(self), *final(self)),
            ({
                let header = old(self).stage->SyncWriting_0;
                if written is Ok {
                    &&& levelled(*old(self), *final(self), header)
                    &&& action is AskInfo
                } else {
                    advanced(at_rest(*old(self)), *final(self), action)
                }
            }),
    {
        match self.take_stage() {
            DrainStage::SyncWriting(header) => {
                if written.is_ok() {
                    let _ = self.store.commit(header, written);
                    self.stage = DrainStage::Syncing;
                    return DrainAction::AskInfo;
                }
                self.advance()
            },
            _ => self.advance(),
        }
    }

    /// The application told where it stands, for the block that was taken up.
    /// One that already has the block only needs its header on disk; one that
    /// is further cannot be followed; any other executes the block.
    pub fn informed<H: Fn(&[u8]) -> Vec<u8>>(
        &mut self,
        info: Result<InfoResponse, CosmosIntegrationError>,
        hasher: &H,
    ) -> (action: DrainAction)
        requires
            old(self).wf(),
            old(self).stage is Asking,
            forall|b: &[u8]| #[trigger] call_requires(*hasher, (b,)),
        ensures
            drain_step(*old(self), *final(self)),
            ({
                let block = old(self).stage->Asking_0;
                match info {
                    Err(_) => given_up(*old(self), *final(self), block, action),
                    Ok(i) => {
                        let remote = commit_store::remote_height(i);
                        if remote == block.seq_num {
                            &&& only_stage_changed(*old(self), *final(self))
                            &&& final(self).stage matches DrainStage::Writing {
                                block: b,
                                header,
                                executed,
                            } && {
                                &&& b == block
                                &&& !executed
                                &&& header@ == cosmos_types::bare_header(
                                    block.seq_num,
                                    i.last_block_app_hash@,
                                )
                                &&& writes(action, header@)
                            }
                        } else if remote > block.seq_num {
                            given_up(*old(self), *final(self), block, action)
                        } else {
                            &&& only_stage_changed(*old(self), *final(self))
                            &&& final(self).stage == DrainStage::Finalizing(block)
                            &&& action matches DrainAction::Finalize(request)
                                && requests::is_finalize_for(
                                request,
                                block.header,
                                block.body@,
                                *hasher,
                            )
                        }
                    },
                }
            }),
    {
        match self.take_stage() {
            DrainStage::Asking(block) => {
                let i: InfoResponse = match info {
                    Ok(i) => i,
                    Err(_) => {
                        let action = self.give_up(block);
                        assert(given_up(*old(self), *self, block, action));
                        return action;
                    },
                };
                let remote: u64 = if i.last_block_height < 0 {
                    0
                } else {
                    i.last_block_height as u64
                };
                if remote > block.seq_num {
                    let action = self.give_up(block);
                    assert(given_up(*old(self), *self, block, action));
                    return action;
                }
                if remote == block.seq_num {
                    let header: CosmosFinalizedHeader = CosmosFinalizedHeader::bare(
                        block.seq_num,
                        i.last_block_app_hash,
                    );
                    let file: StoredFile = CosmosCommitStore::file_for(&header);
                    self.stage = DrainStage::Writing { block, header, executed: false };
                    return DrainAction::Write(file);
                }
                let request: FinalizeBlockRequest = requests::finalize_request_from_inputs(
                    &block.header,
                    &block.body,
                    hasher,
                );
                self.stage = DrainStage::Finalizing(block);
                DrainAction::Finalize(request)
            },
            _ => DrainAction::Done,
        }
    }

    /// The application executed and committed the block, or failed to.
    pub fn finalized(
        &mut self,
        result: Result<(FinalizeBlockResponse, CommitResponse), CosmosIntegrationError>,
    ) -> (action: DrainAction)
        requires
            old(self).wf(),
            old(self).stage is Finalizing,
        ensures
            drain_step(*old(self), *final(self)),
            ({
                let block = old(self).stage->Finalizing_0;
                match result {
                    Err(_) => given_up(*old(self), *final(self), block, action),
                    Ok((f, c)) => {
                        &&& only_stage_changed(*old(self), *final(self))
                        &&& final(self).stage matches DrainStage::Writing {
                            block: b,
                            header,
                            executed,
                        } && {
                            &&& b == block
                            &&& executed
                            &&& header@ == cosmos_types::executed_header(block.seq_num, f, c)
                            &&& writes(action, header@)
                        }
                    },
                }
            }),
    {
        match self.take_stage() {
            DrainStage::Finalizing(block) => match result {
                Ok((f, c)) => {
                    let header: CosmosFinalizedHeader = CosmosFinalizedHeader::from_abci_responses(
                        block.seq_num,
                        &f,
                        &c,
                    );
                    let file: StoredFile = CosmosCommitStore::file_for(&header);
                    self.stage = DrainStage::Writing { block, header, executed: true };
                    DrainAction::Write(file)
                },
                Err(_) => {
                    let action = self.give_up(block);
                    assert(given_up(*old(self), *self, block, action));
                    action
                },
            },
            _ => DrainAction::Done,
        }
    }

    /// The file of the block's header was written, or not. A block that is on
    /// disk takes its transactions out of the pool, and the next one is taken
    /// up; the report is for a block that the application executed just now.
    pub fn written(&mut self, written: Result<(), String>) -> (r: (
        DrainAction,
        Option<CommitReport>,
    ))
        requires
            old(self).wf(),
            old(self).stage is Writing,
        ensures
            drain_step(*old(self), *final(self)),
            ({
                let block = old(self).stage->block;
                let header = old(self).stage->header;
                if written is Ok {
                    &&& after_commit(*old(self), *final(self), r.0)
                    &&& r.1 == if old(self).stage->executed {
                        Some(
                            CommitReport { height: block.seq_num, txs: block.body@.len() as usize },
                        )
                    } else {
                        None
                    }
                } else {
                    &&& given_up(*old(self), *final(self), block, r.0)
                    &&& r.1 is None
                }
            }),
    {
        let ghost before = *self;
        match self.take_stage() {
            DrainStage::Writing { block, header, executed } => {
                if !written.is_ok() {
                    let action = self.give_up(block);
                    assert(given_up(*old(self), *self, block, action));
                    return (action, None);
                }
                let _ = self.store.commit(header, written);
                self.pending_txs.purge(block.body.txs());
                let report: Option<CommitReport> = if executed {
                    Some(CommitReport { height: block.seq_num, txs: block.body.txs().len() })
                } else {
                    None
                };
                let ghost middle = *self;
                proof {
                    assert(middle.stage is Idle);
                    assert(committed(before, middle));
                }
                let action = self.advance();
                assert(committed(before, middle) && advanced(middle, *self, action));
                assert(after_commit(*old(self), *self, action));
                (action, report)
            },
            _ => (DrainAction::Done, None),
        }
    }
}

/// What the commit of the staged block does before the next one is taken up:
/// its header is in the store and its transactions are out of the pool.
pub open spec fn committed<C>(
    before: CosmosTxPoolExecutor<C>,
    middle: CosmosTxPoolExecutor<C>,
) -> bool {
    &&& before.stage matches DrainStage::Writing { block, header, executed } && {
        &&& middle.store@ == before.store@.insert(header@.height, header@)
        &&& middle.pending_txs@ == mempool::keep_others(
            before.pending_txs@,
            mempool::tx_ids(block.body@),
        )
    }
    &&& middle.wf()
    &&& middle.untouched_by_drain(before)
    &&& middle.pending_app_commits == before.pending_app_commits
    &&& middle.stage is Idle
}

/// What happens once the header of the staged block is on disk.
pub open spec fn after_commit<C>(
    before: CosmosTxPoolExecutor<C>,
    after: CosmosTxPoolExecutor<C>,
    action: DrainAction,
) -> bool {
    exists|middle: CosmosTxPoolExecutor<C>|
        committed(before, middle) && advanced(middle, after, action)
}

/// Whether `after` can follow `before` while committed blocks are applied.
pub open spec fn drain_step<C>(
    before: CosmosTxPoolExecutor<C>,
    after: CosmosTxPoolExecutor<C>,
) -> bool {
    match before.stage {
        DrainStage::Idle => false,
        DrainStage::Syncing => {
            ||| only_stage_changed(before, after) && after.stage is SyncWriting
            ||| exists|a: DrainAction| #[trigger] advanced(at_rest(before), after, a)
        },
        DrainStage::SyncWriting(header) => {
            ||| levelled(before, after, header)
            ||| exists|a: DrainAction| #[trigger] advanced(at_rest(before), after, a)
        },
        DrainStage::Asking(block) => {
            ||| exists|a: DrainAction| #[trigger] given_up(before, after, block, a)
            ||| only_stage_changed(before, after) && after.stage == DrainStage::Finalizing(block)
            ||| only_stage_changed(before, after) && after.stage is Writing && after.staged()
                == Some(block)
        },
        DrainStage::Finalizing(block) => {
            ||| exists|a: DrainAction| #[trigger] given_up(before, after, block, a)
            ||| only_stage_changed(before, after) && after.stage is Writing && after.staged()
                == Some(block)
        },
        DrainStage::Writing { block, .. } => {
            ||| exists|a: DrainAction| #[trigger] given_up(before, after, block, a)
            ||| exists|a: DrainAction| #[trigger] after_commit(before, after, a)
        },
    }
}

/// The blocks that wait to be applied, the one that is being applied among
/// them.
pub open spec fn waiting<C>(e: CosmosTxPoolExecutor<C>) -> Map<u64, CosmosBlock> {
    match e.staged() {
        Some(block) => e.pending_app_commits@.insert(block.seq_num, block),
        None => e.pending_app_commits@,
    }
}

/// Whether the headers in `now` are those in `first` and one for each height
/// above the latest of `first` up to the latest of `now`.
pub open spec fn extends_without_gaps(
    first: Map<u64, cosmos_types::FinalizedHeaderView>,
    now: Map<u64, cosmos_types::FinalizedHeaderView>,
) -> bool {
    &&& commit_store::latest_height(first) <= commit_store::latest_height(now)
    &&& forall|h: u64| #[trigger]
        now.contains_key(h) <==> first.contains_key(h) || commit_store::latest_height(first) < h
            <= commit_store::latest_height(now)
    &&& forall|h: u64| #[trigger] first.contains_key(h) ==> now[h] == first[h]
}

/// Where a run that started at `first` can stand.
pub open spec fn reached<C>(first: CosmosTxPoolExecutor<C>, now: CosmosTxPoolExecutor<C>) -> bool {
    let purged = ids_up_to(first.pending_app_commits@, now.latest());
    &&& now.wf()
    &&& extends_without_gaps(first.store@, now.store@)
    &&& if now.stage is Syncing || now.stage is SyncWriting {
        &&& now.pending_app_commits@ == first.pending_app_commits@
        &&& now.pending_txs@ == first.pending_txs@
    } else {
        &&& waiting(now) == above(first.pending_app_commits@, now.latest())
        &&& now.pending_txs@ == mempool::keep_others(first.pending_txs@, purged)
    }
}

proof fn lemma_appended<C>(
    first: CosmosTxPoolExecutor<C>,
    before: CosmosTxPoolExecutor<C>,
    after: CosmosTxPoolExecutor<C>,
    header: cosmos_types::FinalizedHeaderView,
)
    requires
        before.wf(),
        after.wf(),
        extends_without_gaps(first.store@, before.store@),
        header.height == before.latest() + 1,
        after.store@ == before.store@.insert(header.height, header),
    ensures
        after.latest() == before.latest() + 1,
        extends_without_gaps(first.store@, after.store@),
{
    commit_store::lemma_has_latest(before.store);
    commit_store::appending_catches_up(before.store@, header.height, header);
    assert forall|h: u64| #[trigger] after.store@.contains_key(h) <==> first.store@.contains_key(h)
        || first.latest() < h <= after.latest() by {
        assert(before.store@.contains_key(h) <==> first.store@.contains_key(h) || first.latest() < h
            <= before.latest());
    }
    assert forall|h: u64| #[trigger] first.store@.contains_key(h) implies after.store@[h]
        == first.store@[h] by {
        assert(before.store@.contains_key(h));
        commit_store::lemma_latest_bounds(before.store, h);
    }
}

/// Turning to the next block keeps a run on its way.
proof fn lemma_advance_reaches<C>(
    first: CosmosTxPoolExecutor<C>,
    before: CosmosTxPoolExecutor<C>,
    after: CosmosTxPoolExecutor<C>,
    action: DrainAction,
)
    requires
        extends_without_gaps(first.store@, before.store@),
        advanced(before, after, action),
        above(before.pending_app_commits@, before.latest()) == above(
            first.pending_app_commits@,
            before.latest(),
        ),
        mempool::keep_others(
            before.pending_txs@,
            ids_up_to(before.pending_app_commits@, before.latest()),
        ) == mempool::keep_others(
            first.pending_txs@,
            ids_up_to(first.pending_app_commits@, before.latest()),
        ),
    ensures
        reached(first, after),
{
    let fresh = above(before.pending_app_commits@, before.latest());
    assert(waiting(after) =~= fresh) by {
        if after.stage is Asking {
            let next = (before.latest() + 1) as u64;
            assert(fresh.contains_key(next));
            assert(after.staged() == Some(fresh[next]));
            assert(fresh[next].seq_num == next);
        }
    }
}

/// Applying a block keeps a run on its way.
proof fn lemma_commit_reaches<C>(
    first: CosmosTxPoolExecutor<C>,
    before: CosmosTxPoolExecutor<C>,
    middle: CosmosTxPoolExecutor<C>,
    after: CosmosTxPoolExecutor<C>,
    action: DrainAction,
)
    requires
        reached(first, before),
        committed(before, middle),
        advanced(middle, after, action),
    ensures
        reached(first, after),
{
    let block = before.stage->block;
    let header = before.stage->header;
    let all = first.pending_app_commits@;
    lemma_appended(first, before, middle, header@);
    let fresh = above(all, before.latest());
    assert(waiting(before) == fresh);
    assert(fresh.contains_key(block.seq_num) && fresh[block.seq_num] == block);
    assert(all.contains_key(block.seq_num) && all[block.seq_num] == block);
    assert forall|k: u64| #[trigger] middle.pending_app_commits@.contains_key(k) implies k
        > middle.latest() && all.contains_key(k) && middle.pending_app_commits@[k] == all[k] by {
        assert(waiting(before).contains_key(k) && waiting(before)[k]
            == before.pending_app_commits@[k]);
        assert(fresh.contains_key(k));
        assert(k != block.seq_num);
    }
    assert(above(middle.pending_app_commits@, middle.latest()) =~= above(all, middle.latest())) by {
        assert forall|k: u64|
            above(all, middle.latest()).contains_key(k) implies above(
            middle.pending_app_commits@,
            middle.latest(),
        ).contains_key(k) by {
            assert(waiting(before).contains_key(k));
        }
    }
    let none = ids_up_to(middle.pending_app_commits@, middle.latest());
    assert(none =~= Set::empty());
    mempool::lemma_keep_all(middle.pending_txs@);
    let earlier = ids_up_to(all, before.latest());
    let ids = mempool::tx_ids(block.body@);
    mempool::lemma_keep_twice(first.pending_txs@, earlier, ids);
    assert(earlier.union(ids) =~= ids_up_to(all, middle.latest())) by {
        assert forall|id: Seq<u8>|
            earlier.union(ids).contains(id) <==> ids_up_to(all, middle.latest()).contains(id) by {
            if earlier.contains(id) {
                let k = choose|k: u64| #[trigger]
                    all.contains_key(k) && k <= before.latest() && mempool::tx_ids(
                        all[k].body@,
                    ).contains(id);
                assert(all.contains_key(k) && k <= middle.latest());
            }
            if ids.contains(id) {
                assert(all.contains_key(block.seq_num) && block.seq_num <= middle.latest());
            }
            if ids_up_to(all, middle.latest()).contains(id) {
                let k = choose|k: u64| #[trigger]
                    all.contains_key(k) && k <= middle.latest() && mempool::tx_ids(
                        all[k].body@,
                    ).contains(id);
                if k <= before.latest() {
                    assert(all.contains_key(k) && k <= before.latest());
                }
            }
        }
    }
    lemma_advance_reaches(first, middle, after, action);
}

proof fn lemma_step_reaches<C>(
    first: CosmosTxPoolExecutor<C>,
    before: CosmosTxPoolExecutor<C>,
    after: CosmosTxPoolExecutor<C>,
)
    requires
        reached(first, before),
        drain_step(before, after),
    ensures
        reached(first, after),
{
    match before.stage {
        DrainStage::Idle => {},
        DrainStage::Syncing => {
            if !(only_stage_changed(before, after) && after.stage is SyncWriting) {
                let a = choose|a: DrainAction| #[trigger] advanced(at_rest(before), after, a);
                lemma_advance_reaches(first, at_rest(before), after, a);
            }
        },
        DrainStage::SyncWriting(header) => {
            if levelled(before, after, header) {
                lemma_appended(first, before, after, header@);
            } else {
                let a = choose|a: DrainAction| #[trigger] advanced(at_rest(before), after, a);
                lemma_advance_reaches(first, at_rest(before), after, a);
            }
        },
        DrainStage::Writing { block, .. } => {
            if exists|a: DrainAction| #[trigger] after_commit(before, after, a) {
                let a = choose|a: DrainAction| #[trigger] after_commit(before, after, a);
                let middle = choose|middle: CosmosTxPoolExecutor<C>|
                    committed(before, middle) && advanced(middle, after, a);
                lemma_commit_reaches(first, before, middle, after, a);
            }
        },
        _ => {},
    }
}

proof fn lemma_run_reaches<C>(run: Seq<CosmosTxPoolExecutor<C>>, i: int)
    requires
        0 <= i < run.len(),
        run[0].wf(),
        run[0].stage is Syncing,
        forall|j: int| 0 <= j < run.len() - 1 ==> drain_step(#[trigger] run[j], run[j + 1]),
    ensures
        reached(run[0], run[i]),
    decreases i,
{
    if i > 0 {
        lemma_run_reaches(run, i - 1);
        assert(drain_step(run[i - 1], run[i - 1 + 1]));
        lemma_step_reaches(run[0], run[i - 1], run[i]);
    }
}

/// A whole run, from the commit of blocks until nothing more can be done: the
/// heights that were written are consecutive from the latest one, exactly the
/// pending blocks above the height reached are kept, and exactly the
/// transactions of those up to it have left the pool.
pub proof fn runs_commit_without_gaps<C>(run: Seq<CosmosTxPoolExecutor<C>>)
    requires
        run.len() > 0,
        run[0].wf(),
        run[0].stage is Syncing,
        forall|i: int| 0 <= i < run.len() - 1 ==> drain_step(#[trigger] run[i], run[i + 1]),
        run.last().stage is Idle,
    ensures
        extends_without_gaps(run[0].store@, run.last().store@),
        run.last().pending_app_commits@ == above(
            run[0].pending_app_commits@,
            run.last().latest(),
        ),
        run.last().pending_txs@ == mempool::keep_others(
            run[0].pending_txs@,
            ids_up_to(run[0].pending_app_commits@, run.last().latest()),
        ),
{
    lemma_run_reaches(run, run.len() - 1);
}

/// Blocks are applied one height at a time: the commit of a staged block moves
/// the application's height up by exactly one.
pub proof fn commits_are_consecutive<C>(
    before: CosmosTxPoolExecutor<C>,
    middle: CosmosTxPoolExecutor<C>,
)
    requires
        before.wf(),
        committed(before, middle),
    ensures
        middle.latest() == before.latest() + 1,
{
    let header = before.stage->header;
    commit_store::lemma_has_latest(before.store);
    commit_store::appending_catches_up(before.store@, header@.height, header@);
}

/// While the application is at its genesis state, every transaction that a
/// proposal takes from the pool is in its block.
pub proof fn bypassed_candidates_are_in_the_block<C>(
    entries: Seq<Entry>,
    request: ProposalRequest<C>,
    k: int,
    proposed: Proposal<C>,
)
    requires
        is_candidate_count(entries, request, k),
        proposal::is_proposal_for(proposed, request, mempool::raws_of(entries.take(k))),
    ensures
        proposed.body@ == mempool::raws_of(entries.take(k)),
{
}

/// No candidate is lost when the application has chosen: each one is in the
/// block or pending again.
pub proof fn candidates_are_in_the_block_or_pending<C>(
    before: Seq<Entry>,
    taken: Seq<Entry>,
    chosen: Seq<Seq<u8>>,
    request: ProposalRequest<C>,
    proposed: Proposal<C>,
    after: Seq<Entry>,
    i: int,
)
    requires
        0 <= i < taken.len(),
        mempool::digested(taken),
        proposal::is_proposal_for(proposed, request, chosen),
        after == if chosen.len() <= MAX_COSMOS_TXS_PER_BLOCK {
            mempool::requeued(before, proposal::not_among(mempool::raws_of(taken), chosen))
        } else {
            mempool::restored(before, taken)
        },
    ensures
        proposed.body@.contains(taken[i].1) || mempool::holds(after, taken[i].0),
{
    if chosen.len() <= MAX_COSMOS_TXS_PER_BLOCK {
        let raws = mempool::raws_of(taken);
        if !chosen.contains(taken[i].1) {
            let rest = proposal::not_among(raws, chosen);
            proposal::lemma_not_among(raws, chosen, i);
            let j = choose|j: int| 0 <= j < rest.len() && rest[j] == raws[i];
            mempool::lemma_requeued_holds(before, rest, j);
        }
    } else {
        mempool::lemma_restored_holds(before, taken, i);
    }
}

/// A proposal that the application failed on leaves the pool as it was: what
/// the start of the proposal took is put back by its end.
pub proof fn failed_proposals_leave_the_pool<C>(
    before: CosmosTxPoolExecutor<C>,
    between: CosmosTxPoolExecutor<C>,
    after: CosmosTxPoolExecutor<C>,
    awaited: AwaitedProposal<C>,
    k: int,
)
    requires
        before.wf(),
        is_candidate_count(before.pending_txs@, awaited.request, k),
        between.pending_txs@ == before.pending_txs@.skip(k),
        mempool::entries_of(awaited.taken@) == before.pending_txs@.take(k),
        after.pending_txs@ == mempool::restored(
            between.pending_txs@,
            mempool::entries_of(awaited.taken@),
        ),
    ensures
        after.pending_txs@ == before.pending_txs@,
{
    mempool::pending_are_distinct(before.pending_txs);
    mempool::drain_then_restore(before.pending_txs@, k);
}

/// A block that could not be applied is kept: after giving up, it is pending
/// under its height, and nothing was written or purged.
pub proof fn failed_blocks_are_kept<C>(
    before: CosmosTxPoolExecutor<C>,
    after: CosmosTxPoolExecutor<C>,
    block: CosmosBlock,
    action: DrainAction,
)
    requires
        given_up(before, after, block, action),
    ensures
        after.pending_app_commits@.contains_key(block.seq_num),
        after.pending_app_commits@[block.seq_num] == block,
        after.store@ == before.store@,
        after.pending_txs@ == before.pending_txs@,
{
}

/// Blocks that are filed stand under their numbers: the last one of a number
/// counts, blocks of other numbers stay, and filing two lists is filing one
/// after the other.
pub proof fn blocks_are_filed_by_number(
    pending: Map<u64, CosmosBlock>,
    a: Seq<CosmosBlock>,
    b: Seq<CosmosBlock>,
    block: CosmosBlock,
    other: u64,
)
    ensures
        with_blocks(pending, a + b) == with_blocks(with_blocks(pending, a), b),
        with_blocks(pending, seq![block]).contains_key(block.seq_num),
        with_blocks(pending, seq![block])[block.seq_num] == block,
        other != block.seq_num ==> (with_blocks(pending, seq![block]).contains_key(other)
            <==> pending.contains_key(other)),
        other != block.seq_num ==> with_blocks(pending, seq![block])[other] == pending[other],
        with_blocks(pending, Seq::empty()) == pending,
    decreases b.len(),
{
    reveal_with_fuel(with_blocks, 2);
    assert(seq![block].drop_last() =~= Seq::empty());
    if b.len() > 0 {
        blocks_are_filed_by_number(pending, a, b.drop_last(), block, other);
        assert((a + b).drop_last() =~= a + b.drop_last());
        assert((a + b).last() == b.last());
    } else {
        assert(a + b =~= a);
    }
}

/// Turning to the next block takes up the pending block right above the latest
/// height, if it is there, and drops the pending blocks up to that height; the
/// others stay. Of the pending transactions exactly those leave that are in a
/// dropped block, and the others keep their order.
pub proof fn the_next_block_is_taken_up<C>(
    before: CosmosTxPoolExecutor<C>,
    after: CosmosTxPoolExecutor<C>,
    action: DrainAction,
    k: u64,
    id: Seq<u8>,
) -> (places: Seq<int>)
    requires
        before.wf(),
        advanced(before, after, action),
    ensures
        ({
            let latest = commit_store::latest_height(before.store@);
            let pending = before.pending_app_commits@;
            let ready = latest < u64::MAX && pending.contains_key((latest + 1) as u64);
            let dropped = exists|h: u64, i: int|
                {
                    &&& #[trigger] pending.contains_key(h)
                    &&& h <= latest
                    &&& 0 <= i < pending[h].body@.len()
                    &&& (#[trigger] pending[h].body@[i]).len() > 0
                    &&& cosmos_types::sha256(pending[h].body@[i]) == id
                };
            &&& ready ==> action is AskInfo && after.stage == DrainStage::Asking(
                pending[(latest + 1) as u64],
            )
            &&& !ready ==> action is Done && after.stage is Idle
            &&& after.pending_app_commits@.contains_key(k) <==> pending.contains_key(k) && k
                > latest && !(ready && k == latest + 1)
            &&& after.pending_app_commits@.contains_key(k) ==> after.pending_app_commits@[k]
                == pending[k]
            &&& after.store@ == before.store@
            &&& after.untouched_by_drain(before)
            &&& mempool::kept_at(
                places,
                before.pending_txs@,
                ids_up_to(pending, latest),
                after.pending_txs@,
            )
            &&& ids_up_to(pending, latest).contains(id) <==> dropped
        }),
{
    let latest = commit_store::latest_height(before.store@);
    let pending = before.pending_app_commits@;
    let fresh = above(pending, latest);
    if ids_up_to(pending, latest).contains(id) {
        let h = choose|h: u64| #[trigger]
            pending.contains_key(h) && h <= latest && mempool::tx_ids(pending[h].body@).contains(id);
        let txs = pending[h].body@;
        let i = choose|i: int|
            0 <= i < txs.len() && (#[trigger] txs[i]).len() > 0 && cosmos_types::sha256(txs[i])
                == id;
        assert(pending.contains_key(h) && pending[h].body@[i].len() > 0);
    }
    if exists|h: u64, i: int|
        {
            &&& #[trigger] pending.contains_key(h)
            &&& h <= latest
            &&& 0 <= i < pending[h].body@.len()
            &&& (#[trigger] pending[h].body@[i]).len() > 0
            &&& cosmos_types::sha256(pending[h].body@[i]) == id
        } {
        let (h, i) = choose|h: u64, i: int|
            {
                &&& #[trigger] pending.contains_key(h)
                &&& h <= latest
                &&& 0 <= i < pending[h].body@.len()
                &&& (#[trigger] pending[h].body@[i]).len() > 0
                &&& cosmos_types::sha256(pending[h].body@[i]) == id
            };
        assert(mempool::tx_ids(pending[h].body@).contains(id));
    }
    assert(fresh.contains_key(k) <==> pending.contains_key(k) && k > latest);
    mempool::other_entries_are_kept(before.pending_txs@, ids_up_to(pending, latest))
}

/// Giving up on a block puts it back and changes nothing else.
pub proof fn blocks_given_up_are_put_back<C>(
    before: CosmosTxPoolExecutor<C>,
    after: CosmosTxPoolExecutor<C>,
    block: CosmosBlock,
    action: DrainAction,
    k: u64,
)
    requires
        given_up(before, after, block, action),
    ensures
        action is Done,
        after.stage is Idle,
        after.store@ == before.store@,
        after.pending_txs@ == before.pending_txs@,
        after.untouched_by_drain(before),
        after.pending_app_commits@.contains_key(k) <==> k == block.seq_num
            || before.pending_app_commits@.contains_key(k),
        k == block.seq_num ==> after.pending_app_commits@[k] == block,
        k != block.seq_num ==> after.pending_app_commits@[k] == before.pending_app_commits@[k],
{
}

/// Levelling the store adds the one header and keeps all others, and leaves the
/// pool and the pending blocks alone.
pub proof fn levelling_adds_one_header<C>(
    before: CosmosTxPoolExecutor<C>,
    after: CosmosTxPoolExecutor<C>,
    header: CosmosFinalizedHeader,
    k: u64,
)
    requires
        levelled(before, after, header),
    ensures
        after.store@.contains_key(header.height),
        after.store@[header.height] == header@,
        k != header.height ==> (after.store@.contains_key(k) <==> before.store@.contains_key(k)),
        k != header.height ==> after.store@[k] == before.store@[k],
        after.stage is Syncing,
        after.pending_txs@ == before.pending_txs@,
        after.pending_app_commits@ == before.pending_app_commits@,
        after.untouched_by_drain(before),
{
}

/// A commit puts the written header into the store, and takes out of the pool
/// exactly the transactions of the block.
pub proof fn commits_store_the_header<C>(
    before: CosmosTxPoolExecutor<C>,
    middle: CosmosTxPoolExecutor<C>,
    k: u64,
) -> (places: Seq<int>)
    requires
        committed(before, middle),
    ensures
        before.stage is Writing,
        ({
            let header = before.stage->header;
            let block = before.stage->block;
            &&& middle.store@.contains_key(header.height)
            &&& middle.store@[header.height] == header@
            &&& k != header.height ==> (middle.store@.contains_key(k)
                <==> before.store@.contains_key(k))
            &&& k != header.height ==> middle.store@[k] == before.store@[k]
            &&& middle.stage is Idle
            &&& middle.pending_app_commits@ == before.pending_app_commits@
            &&& middle.untouched_by_drain(before)
            &&& mempool::kept_at(
                places,
                before.pending_txs@,
                mempool::tx_ids(block.body@),
                middle.pending_txs@,
            )
        }),
{
    mempool::other_entries_are_kept(
        before.pending_txs@,
        mempool::tx_ids(before.stage->block.body@),
    )
}

/// The file of a header is named after its height and holds its encoding.
pub proof fn files_are_written_by_height(
    action: DrainAction,
    header: cosmos_types::FinalizedHeaderView,
)
    requires
        writes(action, header),
    ensures
        action matches DrainAction::Write(file) && file.name@ == text::decimal_text(
            header.height as nat,
        ) + ".rlp"@ && file.bytes@ == header.rlp(),
{
}

/// A block is offered pending transactions from the front: ten thousand at most
/// and no more than were asked for, within the bytes asked for, and all that
/// these limits allow.
pub proof fn blocks_are_offered_what_fits<C>(
    entries: Seq<Entry>,
    request: ProposalRequest<C>,
    k: int,
)
    requires
        0 <= k <= entries.len(),
        request.proposal_byte_limit < usize::MAX,
    ensures
        is_candidate_count(entries, request, k) <==> {
            &&& k <= 10_000
            &&& k <= request.tx_limit
            &&& mempool::total_len(entries.take(k)) <= request.proposal_byte_limit
            &&& k < entries.len() && k < 10_000 && k < request.tx_limit ==> mempool::total_len(
                entries.take(k),
            ) + entries[k].1.len() > request.proposal_byte_limit
        },
{
    let tx_limit = if request.tx_limit > 10_000 {
        10_000
    } else {
        request.tx_limit
    };
    mempool::proposals_take_what_fits(entries, tx_limit, request.proposal_byte_limit as usize, k);
}

/// Applying blocks leaves the rest of the executor alone: its endpoint, its
/// ingress, what waits to be forwarded, the proposals and the size of the pool.
pub proof fn the_rest_is_left_alone<C>(
    before: CosmosTxPoolExecutor<C>,
    after: CosmosTxPoolExecutor<C>,
)
    ensures
        after.untouched_by_drain(before) <==> {
            &&& after.endpoint == before.endpoint
            &&& after.ingress_open == before.ingress_open
            &&& after.forward_egress == before.forward_egress
            &&& after.events == before.events
            &&& after.pending_txs.limit() == before.pending_txs.limit()
        },
        only_stage_changed(before, after) ==> {
            &&& after.untouched_by_drain(before)
            &&& after.store@ == before.store@
            &&& after.pending_txs@ == before.pending_txs@
            &&& after.pending_app_commits@ == before.pending_app_commits@
        },
        at_rest(before).stage is Idle,
        at_rest(before).untouched_by_drain(before),
        at_rest(before).store == before.store,
        at_rest(before).pending_txs == before.pending_txs,
        at_rest(before).pending_app_commits == before.pending_app_commits,
{
}

/// A block that is on disk is followed by the next one: a commit and then the
/// turn to the block above it.
pub proof fn the_next_block_follows_a_commit<C>(
    before: CosmosTxPoolExecutor<C>,
    after: CosmosTxPoolExecutor<C>,
    action: DrainAction,
)
    requires
        before.wf(),
        after_commit(before, after, action),
    ensures
        before.stage is Writing,
        after.latest() == before.latest() + 1,
        after.store@ == before.store@.insert(
            before.stage->header.height,
            before.stage->header@,
        ),
        after.untouched_by_drain(before),
        action is AskInfo <==> after.stage is Asking,
        action is Done <==> after.stage is Idle,
        after.stage matches DrainStage::Asking(block) ==> block.seq_num == after.latest() + 1,
{
    let middle = choose|middle: CosmosTxPoolExecutor<C>|
        committed(before, middle) && advanced(middle, after, action);
    commits_are_consecutive(before, middle);
}

/// A request whose byte limit cannot be reached is offered as many pending
/// transactions as there are, up to ten thousand and to what was asked for.
pub proof fn unlimited_blocks_are_offered_all<C>(
    entries: Seq<Entry>,
    request: ProposalRequest<C>,
    k: int,
)
    requires
        0 <= k <= entries.len(),
        request.proposal_byte_limit >= usize::MAX,
    ensures
        is_candidate_count(entries, request, k) <==> k <= 10_000 && k <= request.tx_limit && (k
            == entries.len() || k == 10_000 || k == request.tx_limit),
{
    let tx_limit = if request.tx_limit > 10_000 {
        10_000
    } else {
        request.tx_limit
    };
    mempool::proposals_take_what_fits(entries, tx_limit, usize::MAX, k);
}

} // verus!
