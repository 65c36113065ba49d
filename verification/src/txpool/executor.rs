//! The executor behind the transaction pool commands of consensus, for an
//! application that executes blocks on its own.
use std::collections::VecDeque;

use bytes::Bytes;
use vstd::prelude::*;

use crate::abci::error::CosmosTxPoolError;
use crate::abci::messages::PrepareProposalRequest;
use crate::block_policy::CosmosBlock;
use crate::cosmos_types;
use crate::txpool::mempool;
use crate::txpool::mempool::IndexedCosmosMempool;
use crate::txpool::proposal;
use crate::txpool::proposal::{Proposal, ProposalRequest};
use crate::txpool::raw;

verus! {

/// The state of the transaction pool executor.
pub struct CosmosTxPoolExecutor<C> {
    pub endpoint: String,
    pub pending_txs: IndexedCosmosMempool,
    pub events: VecDeque<Proposal<C>>,
}

impl<C> CosmosTxPoolExecutor<C> {
    pub open spec fn wf(self) -> bool {
        self.pending_txs.wf()
    }

    /// An executor without pending transactions; `max_txs_setting` bounds the
    /// pool.
    pub fn new(endpoint: String, max_txs_setting: Option<&str>) -> (executor: Self)
        ensures
            executor.wf(),
            executor.endpoint == endpoint,
            executor.pending_txs@.len() == 0,
            executor.pending_txs.limit() == mempool::max_txs_of(
                match max_txs_setting {
                    Some(s) => Some(s@),
                    None => None,
                },
            ),
            executor.events@.len() == 0,
    {
        CosmosTxPoolExecutor {
            endpoint,
            pending_txs: IndexedCosmosMempool::new(max_txs_setting),
            events: VecDeque::new(),
        }
    }

    /// How many transactions are pending.
    pub fn pending_len(&self) -> (n: usize)
        ensures
            n == self.pending_txs@.len(),
    {
        self.pending_txs.pending_len()
    }

    /// Starts a proposal: the application is asked to fill the block, and is
    /// told the transactions of the blocks that it extends.
    pub fn start_proposal(
        &self,
        request: &ProposalRequest<C>,
        extending_blocks: &Vec<CosmosBlock>,
    ) -> (prepare: PrepareProposalRequest)
        ensures
            proposal::is_prepare_for(
                prepare,
                *request,
                proposal::txs_of_blocks(extending_blocks@),
            ),
    {
        proposal::prepare_request(request, proposal::collect_extending_block_txs(extending_blocks))
    }

    /// Finishes a proposal with the transactions that the application chose.
    /// Tells whether consensus has to be woken.
    pub fn finish_proposal(
        &mut self,
        request: ProposalRequest<C>,
        prepared: Result<Vec<Vec<u8>>, CosmosTxPoolError>,
    ) -> (wake: bool)
        requires
            old(self).wf(),
        ensures
            final(self).wf(),
            final(self).endpoint == old(self).endpoint,
            final(self).pending_txs == old(self).pending_txs,
            match prepared {
                Ok(txs) => {
                    &&& wake
                    &&& final(self).events@.len() == old(self).events@.len() + 1
                    &&& final(self).events@.drop_last() == old(self).events@
                    &&& proposal::is_proposal_for(
                        final(self).events@.last(),
                        request,
                        cosmos_types::tx_views(txs@),
                    )
                },
                Err(_) => !wake && final(self).events@ == old(self).events@,
            },
    {
        match prepared {
            Ok(txs) => {
                self.events.push_back(proposal::propose(request, txs));
                assert(self.events@.drop_last() =~= old(self).events@);
                true
            },
            Err(_) => false,
        }
    }

    /// Hands transactions that other nodes sent on to be checked; an empty batch
    /// goes nowhere.
    pub fn insert_forwarded_txs(&self, txs: Vec<Bytes>) -> (to_check: Option<Vec<Bytes>>)
        ensures
            to_check == if txs@.len() == 0 {
                None
            } else {
                Some(txs)
            },
    {
        if txs.len() == 0 {
            None
        } else {
            Some(txs)
        }
    }

    /// Takes the transactions of committed blocks out of the pool.
    pub fn block_commit(&mut self, committed_blocks: &Vec<CosmosBlock>)
        requires
            old(self).wf(),
        ensures
            final(self).wf(),
            final(self).endpoint == old(self).endpoint,
            final(self).events == old(self).events,
            final(self).pending_txs.limit() == old(self).pending_txs.limit(),
            final(self).pending_txs@ == mempool::keep_others(
                old(self).pending_txs@,
                mempool::tx_ids(proposal::txs_of_blocks(committed_blocks@)),
            ),
    {
        let ghost start = self.pending_txs@;
        let ghost blocks = committed_blocks@;
        let mut i: usize = 0;
        proof {
            assert(blocks.take(0) =~= Seq::<CosmosBlock>::empty());
            assert(mempool::tx_ids(proposal::txs_of_blocks(blocks.take(0))) =~= Set::empty());
            mempool::lemma_keep_all(start);
        }
        while i < committed_blocks.len()
            invariant
                i <= committed_blocks@.len(),
                blocks == committed_blocks@,
                start == old(self).pending_txs@,
                self.wf(),
                self.endpoint == old(self).endpoint,
                self.events == old(self).events,
                self.pending_txs.limit() == old(self).pending_txs.limit(),
                self.pending_txs@ == mempool::keep_others(
                    start,
                    mempool::tx_ids(proposal::txs_of_blocks(blocks.take(i as int))),
                ),
            decreases committed_blocks@.len() - i,
        {
            self.pending_txs.purge(committed_blocks[i].body.txs());
            proof {
                let before = proposal::txs_of_blocks(blocks.take(i as int));
                let more = blocks[i as int].body@;
                assert(blocks.take(i + 1).drop_last() =~= blocks.take(i as int));
                lemma_tx_ids_concat(before, more);
                mempool::lemma_keep_twice(start, mempool::tx_ids(before), mempool::tx_ids(more));
            }
            i = i + 1;
        }
        assert(blocks.take(i as int) =~= blocks);
    }

    /// The next proposal, if one waits.
    pub fn poll_event(&mut self) -> (r: Option<Proposal<C>>)
        requires
            old(self).wf(),
        ensures
            final(self).wf(),
            final(self).endpoint == old(self).endpoint,
            final(self).pending_txs == old(self).pending_txs,
            match r {
                Some(p) => {
                    &&& old(self).events@.len() > 0
                    &&& p == old(self).events@[0]
                    &&& final(self).events@ == old(self).events@.skip(1)
                },
                None => old(self).events@.len() == 0 && final(self).events@ == old(self).events@,
            },
    {
        let r: Option<Proposal<C>> = self.events.pop_front();
        proof {
            if r is Some {
                assert(self.events@ =~= old(self).events@.skip(1));
            }
        }
        r
    }
}

proof fn lemma_tx_ids_concat(a: Seq<Seq<u8>>, b: Seq<Seq<u8>>)
    ensures
        mempool::tx_ids(a + b) == mempool::tx_ids(a).union(mempool::tx_ids(b)),
{
    let all = a + b;
    assert forall|id: Seq<u8>|
        mempool::tx_ids(all).contains(id) <==> mempool::tx_ids(a).union(
            mempool::tx_ids(b),
        ).contains(id) by {
        if mempool::tx_ids(all).contains(id) {
            let i = choose|i: int|
                0 <= i < all.len() && (#[trigger] all[i]).len() > 0 && cosmos_types::sha256(all[i])
                    == id;
            if i < a.len() {
                assert(a[i] == all[i]);
            } else {
                assert(b[i - a.len()] == all[i]);
            }
        }
        if mempool::tx_ids(a).contains(id) {
            let i = choose|i: int|
                0 <= i < a.len() && (#[trigger] a[i]).len() > 0 && cosmos_types::sha256(a[i]) == id;
            assert(all[i] == a[i]);
        }
        if mempool::tx_ids(b).contains(id) {
            let i = choose|i: int|
                0 <= i < b.len() && (#[trigger] b[i]).len() > 0 && cosmos_types::sha256(b[i]) == id;
            assert(all[a.len() + i] == b[i]);
        }
    }
    assert(mempool::tx_ids(all) =~= mempool::tx_ids(a).union(mempool::tx_ids(b)));
}

} // verus!
