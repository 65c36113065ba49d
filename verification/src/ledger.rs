//! The ledger of consensus blocks: a cache of recent blocks in front of the
//! disk.
//!
//! Reading and writing blocks on disk is up to the caller: commands say what to
//! persist, and fetches say what to read.
use std::collections::{BTreeMap, VecDeque};

use vstd::prelude::*;

use crate::cosmos_types;
use crate::id_map::{Id, IdMap};
use crate::sorted_map;

verus! {

broadcast use vstd::std_specs::btree::group_btree_axioms;

/// How many rounds the cache covers.
pub const BLOCK_CACHE_SIZE: usize = 1_000;

/// The header of a block: whom it extends, and its encoded form.
#[derive(Clone, Debug, PartialEq, Eq)]
pub struct LedgerHeader {
    pub parent_id: Id,
    pub encoded: Vec<u8>,
}

/// A block as the ledger sees it.
#[derive(Clone, Debug, PartialEq, Eq)]
pub struct LedgerBlock {
    pub id: Id,
    pub body_id: Id,
    pub seq_num: u64,
    pub round: u64,
    pub header: LedgerHeader,
    pub body: Vec<u8>,
}

/// What a header says.
pub type HeaderView = (Seq<u8>, Seq<u8>);

pub open spec fn header_view(h: LedgerHeader) -> HeaderView {
    (h.parent_id@, h.encoded@)
}

/// What the cache holds: the handles of block and body for each round, the
/// headers by block, the bodies by handle.
pub struct CacheView {
    pub index: Map<u64, (Seq<u8>, Seq<u8>)>,
    pub headers: Map<Seq<u8>, HeaderView>,
    pub bodies: Map<Seq<u8>, Seq<u8>>,
}

/// Whether `round` is the first one of an index.
pub open spec fn is_first(index: Map<u64, (Seq<u8>, Seq<u8>)>, round: u64) -> bool {
    &&& index.contains_key(round)
    &&& forall|r: u64| #[trigger] index.contains_key(r) ==> round <= r
}

/// The cache without the blocks that a round had.
pub open spec fn evict(c: CacheView, round: u64) -> CacheView {
    CacheView {
        index: c.index.remove(round),
        headers: c.headers.remove(c.index[round].0),
        bodies: c.bodies.remove(c.index[round].1),
    }
}

/// The cache after a block came in: the block that its round had leaves, and
/// so does the first round once there are too many.
pub open spec fn cached(c: CacheView, size: usize, block: LedgerBlock) -> CacheView {
    let entry = (block.id@, block.body_id@);
    let replaced = if c.index.contains_key(block.round) {
        evict(c, block.round)
    } else {
        c
    };
    let filed = CacheView { index: c.index.insert(block.round, entry), ..replaced };
    let trimmed = if filed.index.len() > size {
        evict(filed, choose|r: u64| is_first(filed.index, r))
    } else {
        filed
    };
    CacheView {
        index: trimmed.index,
        headers: trimmed.headers.insert(block.id@, header_view(block.header)),
        bodies: trimmed.bodies.insert(block.body_id@, block.body@),
    }
}

/// What to persist for a command, in this order.
#[derive(Clone, Copy, Debug, PartialEq, Eq)]
pub enum PersistAction {
    WriteBody,
    WriteHeader,
    UpdateProposedHead(Id),
    UpdateVotedHead(Id),
    UpdateFinalizedHead(Id),
}

/// Recent blocks, and how far the chain is committed.
pub struct CosmosLedger {
    last_commit: Option<(u64, u64)>,
    block_cache_size: usize,
    block_cache: IdMap<LedgerHeader>,
    block_payload_cache: IdMap<Vec<u8>>,
    block_cache_index: BTreeMap<u64, (Id, Id)>,
}

/// A range of headers: the last block, and how many headers up to it.
#[derive(Clone, Copy, Debug, PartialEq, Eq)]
pub struct BlockRange {
    pub last_block_id: Id,
    pub num_blocks: u64,
}

/// A walk from the last block of a range towards its first one.
pub struct HeaderFetch {
    pub range: BlockRange,
    pub next_block_id: Id,
    pub headers: VecDeque<LedgerHeader>,
}

/// What a fetch of headers comes to.
pub enum HeaderFetchStep {
    /// All headers, first block first.
    Found(Vec<LedgerHeader>),
    /// Read this header from disk and go on with it.
    ReadDisk(Id),
    /// The range is not there.
    NotAvailable,
}

/// What a fetch of a body comes to.
pub enum PayloadFetch {
    Found(Vec<u8>),
    /// Read this body from disk; if it is not there, it is not available.
    ReadDisk(Id),
    NotAvailable,
}

pub open spec fn header_views(headers: Seq<LedgerHeader>) -> Seq<HeaderView> {
    Seq::new(headers.len(), |i: int| header_view(headers[i]))
}

/// A copy of a header.
fn copy_header(h: &LedgerHeader) -> (r: LedgerHeader)
    ensures
        header_view(r) == header_view(*h),
{
    LedgerHeader { parent_id: h.parent_id, encoded: cosmos_types::copy_bytes(&h.encoded) }
}

impl CosmosLedger {
    /// What the cache holds.
    pub closed spec fn cache(self) -> CacheView {
        CacheView {
            index: self.block_cache_index@.map_values(|e: (Id, Id)| (e.0@, e.1@)),
            headers: self.block_cache@.map_values(|h: LedgerHeader| header_view(h)),
            bodies: self.block_payload_cache@.map_values(|b: Vec<u8>| b@),
        }
    }

    /// How many rounds the cache covers.
    pub closed spec fn capacity(self) -> usize {
        self.block_cache_size
    }

    /// The sequence number and the round of the last finalized block.
    pub closed spec fn committed(self) -> Option<(u64, u64)> {
        self.last_commit
    }

    pub closed spec fn wf(self) -> bool {
        &&& self.block_cache.wf()
        &&& self.block_payload_cache.wf()
        &&& self.block_cache_index@.dom().finite()
    }

    /// An empty ledger.
    pub fn new() -> (ledger: Self)
        ensures
            ledger.wf(),
            ledger.capacity() == BLOCK_CACHE_SIZE,
            ledger.committed() is None,
            ledger.cache().index == Map::<u64, (Seq<u8>, Seq<u8>)>::empty(),
            ledger.cache().headers == Map::<Seq<u8>, HeaderView>::empty(),
            ledger.cache().bodies == Map::<Seq<u8>, Seq<u8>>::empty(),
    {
        let ledger = CosmosLedger {
            last_commit: None,
            block_cache_size: BLOCK_CACHE_SIZE,
            block_cache: IdMap::new(),
            block_payload_cache: IdMap::new(),
            block_cache_index: BTreeMap::new(),
        };
        assert(ledger.cache().index =~= Map::<u64, (Seq<u8>, Seq<u8>)>::empty());
        assert(ledger.cache().headers =~= Map::<Seq<u8>, HeaderView>::empty());
        assert(ledger.cache().bodies =~= Map::<Seq<u8>, Seq<u8>>::empty());
        ledger
    }

    /// The sequence number of the last finalized block.
    pub fn last_commit(&self) -> (r: Option<u64>)
        ensures
            r == match self.committed() {
                Some(c) => Some(c.0),
                None => None,
            },
    {
        match self.last_commit {
            Some((seq_num, _)) => Some(seq_num),
            None => None,
        }
    }

    /// Whether the cache covers as many rounds as it can: what it does not hold
    /// then is not looked for on disk.
    pub fn is_cache_hydrated(&self) -> (r: bool)
        requires
            self.wf(),
        ensures
            r == (self.cache().index.len() >= self.capacity()),
    {
        proof {
            assert(self.cache().index.dom() =~= self.block_cache_index@.dom());
        }
        self.block_cache_index.len() >= self.block_cache_size
    }

    /// The first round of the index.
    fn first_round(&self) -> (r: Option<u64>)
        requires
            self.wf(),
        ensures
            match r {
                Some(round) => is_first(self.cache().index, round),
                None => self.block_cache_index@.dom() =~= Set::<u64>::empty(),
            },
    {
        let keys: Vec<u64> = sorted_map::keys_of(&self.block_cache_index);
        if keys.len() == 0 {
            assert forall|k: u64| !self.block_cache_index@.dom().contains(k) by {
                assert(!keys@.contains(k));
                assert(!self.block_cache_index@.contains_key(k));
            }
            return None;
        }
        let mut first: u64 = keys[0];
        let mut i: usize = 1;
        while i < keys.len()
            invariant
                1 <= i <= keys@.len(),
                keys@.contains(first),
                forall|j: int| 0 <= j < i ==> first <= #[trigger] keys@[j],
            decreases keys@.len() - i,
        {
            if keys[i] < first {
                first = keys[i];
                assert(keys@[i as int] == first);
            }
            i = i + 1;
        }
        proof {
            let index = self.cache().index;
            assert(self.block_cache_index@.contains_key(first));
            assert forall|r: u64| #[trigger] index.contains_key(r) implies first <= r by {
                assert(self.block_cache_index@.contains_key(r));
                assert(keys@.contains(r));
                let j = choose|j: int| 0 <= j < keys@.len() && keys@[j] == r;
                assert(first <= keys@[j]);
            }
        }
        Some(first)
    }

    /// Takes a round's blocks out of the cache.
    fn evict_entry(&mut self, block_id: &Id, body_id: &Id)
        requires
            old(self).wf(),
        ensures
            final(self).wf(),
            final(self).capacity() == old(self).capacity(),
            final(self).committed() == old(self).committed(),
            final(self).block_cache_index == old(self).block_cache_index,
            final(self).cache().index == old(self).cache().index,
            final(self).cache().headers == old(self).cache().headers.remove(block_id@),
            final(self).cache().bodies == old(self).cache().bodies.remove(body_id@),
    {
        self.block_cache.remove(block_id);
        self.block_payload_cache.remove(body_id);
        assert(self.cache().headers =~= old(self).cache().headers.remove(block_id@));
        assert(self.cache().bodies =~= old(self).cache().bodies.remove(body_id@));
    }

    /// Takes a block into the cache.
    pub fn update_cache(&mut self, block: &LedgerBlock)
        requires
            old(self).wf(),
        ensures
            final(self).wf(),
            final(self).capacity() == old(self).capacity(),
            final(self).committed() == old(self).committed(),
            final(self).cache() == cached(old(self).cache(), old(self).capacity(), *block),
    {
        let ghost start = self.cache();
        let ghost entry = (block.id@, block.body_id@);
        let replaced: Option<(Id, Id)> = self.block_cache_index.insert(
            block.round,
            (block.id, block.body_id),
        );
        proof {
            assert(self.cache().index =~= start.index.insert(block.round, entry));
            assert(self.cache().headers =~= start.headers);
            assert(self.cache().bodies =~= start.bodies);
        }
        if let Some((old_block_id, old_body_id)) = replaced {
            self.evict_entry(&old_block_id, &old_body_id);
        }
        let ghost filed = self.cache();
        proof {
            assert(filed.index.dom() =~= self.block_cache_index@.dom());
        }
        if self.block_cache_index.len() > self.block_cache_size {
            if let Some(first) = self.first_round() {
                proof {
                    let chosen = choose|r: u64| is_first(filed.index, r);
                    assert(is_first(filed.index, first));
                    assert(filed.index.contains_key(chosen) && filed.index.contains_key(first));
                    assert(chosen == first);
                }
                let removed: Option<(Id, Id)> = self.block_cache_index.remove(&first);
                if let Some((old_block_id, old_body_id)) = removed {
                    proof {
                        assert(self.cache().index =~= filed.index.remove(first));
                        assert(self.cache().headers =~= filed.headers);
                        assert(self.cache().bodies =~= filed.bodies);
                    }
                    self.evict_entry(&old_block_id, &old_body_id);
                }
            }
        }
        let ghost trimmed = self.cache();
        let body: Vec<u8> = cosmos_types::copy_bytes(&block.body);
        self.block_payload_cache.insert(block.body_id, body);
        let header: LedgerHeader = copy_header(&block.header);
        self.block_cache.insert(block.id, header);
        proof {
            assert(self.cache().index =~= trimmed.index);
            assert(self.cache().headers =~= trimmed.headers.insert(
                block.id@,
                header_view(block.header),
            ));
            assert(self.cache().bodies =~= trimmed.bodies.insert(block.body_id@, block.body@));
        }
    }

    /// A block was proposed: it goes to disk and into the cache, and becomes
    /// the proposed head if it is canonical.
    pub fn proposed(&mut self, block: &LedgerBlock, is_canonical: bool) -> (actions: Vec<
        PersistAction,
    >)
        requires
            old(self).wf(),
        ensures
            final(self).wf(),
            final(self).capacity() == old(self).capacity(),
            final(self).committed() == old(self).committed(),
            final(self).cache() == cached(old(self).cache(), old(self).capacity(), *block),
            actions@ == if is_canonical {
                seq![
                    PersistAction::WriteBody,
                    PersistAction::WriteHeader,
                    PersistAction::UpdateProposedHead(block.id),
                ]
            } else {
                seq![PersistAction::WriteBody, PersistAction::WriteHeader]
            },
    {
        let mut actions: Vec<PersistAction> = Vec::new();
        actions.push(PersistAction::WriteBody);
        actions.push(PersistAction::WriteHeader);
        if is_canonical {
            actions.push(PersistAction::UpdateProposedHead(block.id));
        }
        self.update_cache(block);
        actions
    }

    /// A block was voted for: it goes into the cache and becomes the voted head.
    pub fn voted(&mut self, block: &LedgerBlock) -> (action: PersistAction)
        requires
            old(self).wf(),
        ensures
            final(self).wf(),
            final(self).capacity() == old(self).capacity(),
            final(self).committed() == old(self).committed(),
            final(self).cache() == cached(old(self).cache(), old(self).capacity(), *block),
            action == PersistAction::UpdateVotedHead(block.id),
    {
        self.update_cache(block);
        PersistAction::UpdateVotedHead(block.id)
    }

    /// A block was finalized: it is the last commit and the finalized head.
    pub fn finalized(&mut self, block: &LedgerBlock) -> (action: PersistAction)
        requires
            old(self).wf(),
        ensures
            final(self).wf(),
            final(self).capacity() == old(self).capacity(),
            final(self).cache() == old(self).cache(),
            final(self).committed() == Some((block.seq_num, block.round)),
            action == PersistAction::UpdateFinalizedHead(block.id),
    {
        self.last_commit = Some((block.seq_num, block.round));
        PersistAction::UpdateFinalizedHead(block.id)
    }

    /// Starts a fetch of headers. A range beyond `max_headers` is refused.
    pub fn fetch_headers(&self, range: BlockRange, max_headers: u64) -> (r: (
        HeaderFetch,
        HeaderFetchStep,
    ))
        requires
            self.wf(),
        ensures
            if range.num_blocks > max_headers {
                &&& r.1 is NotAvailable
                &&& r.0.range == range
                &&& r.0.next_block_id == range.last_block_id
                &&& r.0.headers@.len() == 0
            } else {
                walked(
                    self.cache(),
                    self.cache().index.len() >= self.capacity(),
                    Seq::empty(),
                    range.last_block_id@,
                    range,
                    r.0,
                    r.1,
                )
            },
    {
        let mut fetch = HeaderFetch {
            range,
            next_block_id: range.last_block_id,
            headers: VecDeque::new(),
        };
        assert(header_views(fetch.headers@) =~= Seq::<HeaderView>::empty());
        if range.num_blocks > max_headers {
            return (fetch, HeaderFetchStep::NotAvailable);
        }
        let step: HeaderFetchStep = self.walk(&mut fetch);
        (fetch, step)
    }

    /// Goes on with a fetch after a header was read from disk.
    pub fn fetch_headers_read(&self, fetch: &mut HeaderFetch, read: Option<LedgerHeader>) -> (step:
        HeaderFetchStep)
        requires
            self.wf(),
            old(fetch).headers@.len() < old(fetch).range.num_blocks,
        ensures
            match read {
                Some(h) => walked(
                    self.cache(),
                    self.cache().index.len() >= self.capacity(),
                    seq![header_view(h)] + header_views(old(fetch).headers@),
                    h.parent_id@,
                    old(fetch).range,
                    *final(fetch),
                    step,
                ),
                None => step is NotAvailable && *final(fetch) == *old(fetch),
            },
    {
        match read {
            Some(header) => {
                fetch.next_block_id = header.parent_id;
                fetch.headers.push_front(header);
                assert(header_views(fetch.headers@) =~= seq![header_view(header)] + header_views(
                    old(fetch).headers@,
                ));
                self.walk(fetch)
            },
            None => HeaderFetchStep::NotAvailable,
        }
    }

    fn walk(&self, fetch: &mut HeaderFetch) -> (step: HeaderFetchStep)
        requires
            self.wf(),
            old(fetch).headers@.len() <= old(fetch).range.num_blocks,
        ensures
            walked(
                self.cache(),
                self.cache().index.len() >= self.capacity(),
                header_views(old(fetch).headers@),
                old(fetch).next_block_id@,
                old(fetch).range,
                *final(fetch),
                step,
            ),
    {
        let ghost start = header_views(fetch.headers@);
        let ghost cache = self.cache();
        let mut have: u64 = fetch.headers.len() as u64;
        while have < fetch.range.num_blocks
            invariant
                self.wf(),
                cache == self.cache(),
                have == fetch.headers@.len(),
                have <= fetch.range.num_blocks,
                fetch.range == old(fetch).range,
                start == header_views(old(fetch).headers@),
                follows(
                    cache,
                    start,
                    old(fetch).next_block_id@,
                    header_views(fetch.headers@),
                    fetch.next_block_id@,
                ),
            decreases fetch.range.num_blocks - have,
        {
            let ghost before = header_views(fetch.headers@);
            let ghost at = fetch.next_block_id@;
            match self.block_cache.get(&fetch.next_block_id) {
                Some(header) => {
                    let copy: LedgerHeader = copy_header(header);
                    fetch.next_block_id = copy.parent_id;
                    fetch.headers.push_front(copy);
                    proof {
                        assert(cache.headers.contains_key(at));
                        assert(cache.headers[at] == header_view(*header));
                        assert(header_views(fetch.headers@) =~= seq![cache.headers[at]] + before);
                        lemma_follows_step(cache, start, old(fetch).next_block_id@, before, at);
                    }
                    have = fetch.headers.len() as u64;
                },
                None => {
                    assert(!cache.headers.contains_key(at));
                    if self.is_cache_hydrated() {
                        return HeaderFetchStep::NotAvailable;
                    }
                    return HeaderFetchStep::ReadDisk(fetch.next_block_id);
                },
            }
        }
        let mut out: Vec<LedgerHeader> = Vec::new();
        let mut i: usize = 0;
        while i < fetch.headers.len()
            invariant
                i <= fetch.headers@.len(),
                out@.len() == i,
                forall|j: int| 0 <= j < i ==> header_view(#[trigger] out@[j]) == header_view(
                    fetch.headers@[j],
                ),
            decreases fetch.headers@.len() - i,
        {
            out.push(copy_header(&fetch.headers[i]));
            i = i + 1;
        }
        assert(header_views(out@) =~= header_views(fetch.headers@));
        HeaderFetchStep::Found(out)
    }

    /// Fetches a body.
    pub fn ledger_fetch_payload(&self, payload_id: Id) -> (r: PayloadFetch)
        requires
            self.wf(),
        ensures
            if self.cache().bodies.contains_key(payload_id@) {
                r matches PayloadFetch::Found(body) && body@ == self.cache().bodies[payload_id@]
            } else if self.cache().index.len() >= self.capacity() {
                r is NotAvailable
            } else {
                r == PayloadFetch::ReadDisk(payload_id)
            },
    {
        match self.block_payload_cache.get(&payload_id) {
            Some(body) => PayloadFetch::Found(cosmos_types::copy_bytes(body)),
            None => if self.is_cache_hydrated() {
                PayloadFetch::NotAvailable
            } else {
                PayloadFetch::ReadDisk(payload_id)
            },
        }
    }
}

/// Whether the headers `to` come from `from` by putting cached ones in front,
/// each the parent of the one behind it; `start` and `next` are the handles of
/// the parents that were and are missing.
pub open spec fn follows(
    cache: CacheView,
    from: Seq<HeaderView>,
    start: Seq<u8>,
    to: Seq<HeaderView>,
    next: Seq<u8>,
) -> bool
    decreases to.len(),
{
    if to.len() <= from.len() {
        to == from && next == start
    } else {
        &&& to[0].0 == next
        &&& exists|id: Seq<u8>| #[trigger]
            cache.headers.contains_key(id) && cache.headers[id] == to[0] && follows(
                cache,
                from,
                start,
                to.skip(1),
                id,
            )
    }
}

proof fn lemma_follows_step(
    cache: CacheView,
    from: Seq<HeaderView>,
    start: Seq<u8>,
    to: Seq<HeaderView>,
    at: Seq<u8>,
)
    requires
        follows(cache, from, start, to, at),
        cache.headers.contains_key(at),
    ensures
        follows(
            cache,
            from,
            start,
            seq![cache.headers[at]] + to,
            cache.headers[at].0,
        ),
{
    let next = seq![cache.headers[at]] + to;
    assert(next.skip(1) =~= to);
    lemma_follows_len(cache, from, start, to, at);
}

proof fn lemma_follows_len(
    cache: CacheView,
    from: Seq<HeaderView>,
    start: Seq<u8>,
    to: Seq<HeaderView>,
    at: Seq<u8>,
)
    requires
        follows(cache, from, start, to, at),
    ensures
        to.len() >= from.len(),
{
}

/// What a walk comes to: cached headers are put in front until the range is
/// complete or a header is missing. A missing one is read from disk, unless
/// the cache covers all it can.
pub open spec fn walked(
    cache: CacheView,
    hydrated: bool,
    from: Seq<HeaderView>,
    start: Seq<u8>,
    range: BlockRange,
    fetch: HeaderFetch,
    step: HeaderFetchStep,
) -> bool {
    &&& fetch.range == range
    &&& follows(cache, from, start, header_views(fetch.headers@), fetch.next_block_id@)
    &&& match step {
        HeaderFetchStep::Found(headers) => {
            &&& headers@.len() == range.num_blocks
            &&& header_views(headers@) == header_views(fetch.headers@)
        },
        HeaderFetchStep::ReadDisk(id) => {
            &&& !hydrated
            &&& id == fetch.next_block_id
            &&& !cache.headers.contains_key(id@)
            &&& fetch.headers@.len() < range.num_blocks
        },
        HeaderFetchStep::NotAvailable => {
            &&& hydrated
            &&& !cache.headers.contains_key(fetch.next_block_id@)
            &&& fetch.headers@.len() < range.num_blocks
        },
    }
}

/// The cache never covers more rounds than it may.
pub proof fn cache_stays_bounded(c: CacheView, size: usize, block: LedgerBlock)
    requires
        c.index.dom().finite(),
        c.index.len() <= size,
    ensures
        cached(c, size, block).index.len() <= size,
{
    let filed = c.index.insert(block.round, (block.id@, block.body_id@));
    if filed.len() > size {
        lemma_first_exists(filed.dom());
        let r = choose|r: u64| is_first(filed, r);
        let w = choose|w: u64|
            filed.dom().contains(w) && forall|x: u64| #[trigger]
                filed.dom().contains(x) ==> w <= x;
        assert(filed.contains_key(w));
        assert(is_first(filed, w));
        assert(filed.dom().contains(r));
        assert(filed.remove(r).dom() =~= filed.dom().remove(r));
    }
}

proof fn lemma_first_exists(s: Set<u64>)
    requires
        s.finite(),
        s.len() > 0,
    ensures
        exists|w: u64| s.contains(w) && forall|x: u64| #[trigger] s.contains(x) ==> w <= x,
    decreases s.len(),
{
    let a = s.choose();
    let rest = s.remove(a);
    if rest.len() == 0 {
        assert forall|x: u64| #[trigger] s.contains(x) implies a <= x by {
            if x != a {
                assert(rest.contains(x));
            }
        }
    } else {
        lemma_first_exists(rest);
        let w = choose|w: u64|
            rest.contains(w) && forall|x: u64| #[trigger] rest.contains(x) ==> w <= x;
        let m = if a <= w {
            a
        } else {
            w
        };
        assert(s.contains(m));
        assert forall|x: u64| #[trigger] s.contains(x) implies m <= x by {
            if x != a {
                assert(rest.contains(x));
            }
        }
    }
}

/// A block is found right after it came in, by its handle and by that of its
/// body.
pub proof fn cached_block_is_found(c: CacheView, size: usize, block: LedgerBlock)
    ensures
        cached(c, size, block).headers.contains_key(block.id@),
        cached(c, size, block).headers[block.id@] == header_view(block.header),
        cached(c, size, block).bodies.contains_key(block.body_id@),
        cached(c, size, block).bodies[block.body_id@] == block.body@,
{
}

/// Taking in a block keeps every other cached block. A round leaves the index
/// only as the first one of a cache that would cover too many; a header or a
/// body leaves only with such a round, or with the block that the new one's
/// round had before. All others stay as they were, and only the block comes in.
pub proof fn other_blocks_stay_cached(c: CacheView, size: usize, block: LedgerBlock, first: u64)
    requires
        c.index.dom().finite(),
        first == block.round || c.index.contains_key(first),
        first <= block.round,
        forall|r: u64| #[trigger] c.index.contains_key(r) ==> first <= r,
    ensures
        ({
            let after = cached(c, size, block);
            let renewed = c.index.contains_key(block.round);
            let full = if renewed {
                c.index.len() > size
            } else {
                c.index.len() + 1 > size
            };
            let (first_id, first_body): (Seq<u8>, Seq<u8>) = if first == block.round {
                (block.id@, block.body_id@)
            } else {
                c.index[first]
            };
            &&& forall|r: u64| #[trigger]
                after.index.contains_key(r) <==> (r == block.round || c.index.contains_key(r))
                    && !(full && r == first)
            &&& forall|r: u64|
                #![trigger after.index[r]]
                after.index.contains_key(r) ==> after.index[r] == if r == block.round {
                    (block.id@, block.body_id@)
                } else {
                    c.index[r]
                }
            &&& forall|id: Seq<u8>| #[trigger]
                after.headers.contains_key(id) <==> id == block.id@ || (c.headers.contains_key(id)
                    && !(renewed && id == c.index[block.round].0) && !(full && id == first_id))
            &&& forall|id: Seq<u8>|
                #![trigger after.headers[id]]
                after.headers.contains_key(id) && id != block.id@ ==> after.headers[id]
                    == c.headers[id]
            &&& after.headers[block.id@] == (block.header.parent_id@, block.header.encoded@)
            &&& forall|id: Seq<u8>| #[trigger]
                after.bodies.contains_key(id) <==> id == block.body_id@ || (c.bodies.contains_key(
                    id,
                ) && !(renewed && id == c.index[block.round].1) && !(full && id == first_body))
            &&& forall|id: Seq<u8>|
                #![trigger after.bodies[id]]
                after.bodies.contains_key(id) && id != block.body_id@ ==> after.bodies[id]
                    == c.bodies[id]
            &&& after.bodies[block.body_id@] == block.body@
        }),
{
    let filed = c.index.insert(block.round, (block.id@, block.body_id@));
    assert(filed.dom() =~= c.index.dom().insert(block.round));
    assert(is_first(filed, first));
    let chosen = choose|r: u64| is_first(filed, r);
    assert(is_first(filed, chosen));
    assert(filed.contains_key(first) && filed.contains_key(chosen));
    assert(chosen == first);
}

/// A walk follows parents: the headers that it puts in front are cached ones,
/// each under the handle that the one behind it names as its parent, from the
/// start on. It ends with a complete range, or at a handle that is not cached:
/// that one is to be read from disk if and only if the cache could cover more.
/// `ids` are the handles, the next one wanted first and the start last.
pub proof fn walks_follow_parents(
    cache: CacheView,
    hydrated: bool,
    from: Seq<HeaderView>,
    start: Seq<u8>,
    range: BlockRange,
    fetch: HeaderFetch,
    step: HeaderFetchStep,
) -> (ids: Seq<Seq<u8>>)
    requires
        walked(cache, hydrated, from, start, range, fetch, step),
        from.len() <= range.num_blocks,
    ensures
        fetch.range == range,
        ids.len() == fetch.headers@.len() - from.len() + 1,
        ids[0] == fetch.next_block_id@,
        ids[ids.len() - 1] == start,
        forall|i: int|
            #![trigger ids[i]]
            0 < i < ids.len() ==> {
                let h = fetch.headers@[i - 1];
                &&& cache.headers.contains_key(ids[i])
                &&& cache.headers[ids[i]] == (h.parent_id@, h.encoded@)
                &&& h.parent_id@ == ids[i - 1]
            },
        forall|i: int|
            0 <= i < from.len() ==> ({
                let h = fetch.headers@[ids.len() - 1 + i];
                #[trigger] from[i] == (h.parent_id@, h.encoded@)
            }),
        match step {
            HeaderFetchStep::Found(headers) => {
                &&& headers@.len() == range.num_blocks
                &&& headers@.len() == fetch.headers@.len()
                &&& forall|i: int|
                    0 <= i < headers@.len() ==> (#[trigger] headers@[i]).parent_id@
                        == fetch.headers@[i].parent_id@ && headers@[i].encoded@
                        == fetch.headers@[i].encoded@
            },
            HeaderFetchStep::ReadDisk(id) => {
                &&& !hydrated
                &&& id@ == ids[0]
                &&& !cache.headers.contains_key(ids[0])
                &&& fetch.headers@.len() < range.num_blocks
            },
            HeaderFetchStep::NotAvailable => {
                &&& hydrated
                &&& !cache.headers.contains_key(ids[0])
                &&& fetch.headers@.len() < range.num_blocks
            },
        },
{
    let to = header_views(fetch.headers@);
    let ids = lemma_chain(cache, from, start, to, fetch.next_block_id@);
    assert forall|i: int| #![trigger ids[i]] 0 < i < ids.len() implies ({
        let h = fetch.headers@[i - 1];
        &&& cache.headers.contains_key(ids[i])
        &&& cache.headers[ids[i]] == (h.parent_id@, h.encoded@)
        &&& h.parent_id@ == ids[i - 1]
    }) by {
        assert(to[i - 1] == header_view(fetch.headers@[i - 1]));
    }
    assert forall|i: int| 0 <= i < from.len() implies ({
        let h = fetch.headers@[ids.len() - 1 + i];
        #[trigger] from[i] == (h.parent_id@, h.encoded@)
    }) by {
        assert(to.skip(ids.len() - 1)[i] == to[ids.len() - 1 + i]);
    }
    if let HeaderFetchStep::Found(headers) = step {
        assert(header_views(headers@).len() == to.len());
        assert forall|i: int| 0 <= i < headers@.len() implies (
        #[trigger] headers@[i]).parent_id@ == fetch.headers@[i].parent_id@ && headers@[i].encoded@
            == fetch.headers@[i].encoded@ by {
            assert(header_views(headers@)[i] == to[i]);
        }
    }
    ids
}

proof fn lemma_chain(
    cache: CacheView,
    from: Seq<HeaderView>,
    start: Seq<u8>,
    to: Seq<HeaderView>,
    next: Seq<u8>,
) -> (ids: Seq<Seq<u8>>)
    requires
        follows(cache, from, start, to, next),
    ensures
        to.len() >= from.len(),
        ids.len() == to.len() - from.len() + 1,
        ids[0] == next,
        ids[ids.len() - 1] == start,
        to.skip(ids.len() - 1) == from,
        forall|i: int|
            #![trigger ids[i]]
            0 < i < ids.len() ==> cache.headers.contains_key(ids[i]) && cache.headers[ids[i]]
                == to[i - 1] && to[i - 1].0 == ids[i - 1],
    decreases to.len(),
{
    if to.len() <= from.len() {
        assert(to.skip(0) =~= from);
        seq![start]
    } else {
        let id = choose|id: Seq<u8>| #[trigger]
            cache.headers.contains_key(id) && cache.headers[id] == to[0] && follows(
                cache,
                from,
                start,
                to.skip(1),
                id,
            );
        let rest = lemma_chain(cache, from, start, to.skip(1), id);
        let ids = seq![next] + rest;
        assert(to.skip(ids.len() - 1) =~= to.skip(1).skip(rest.len() - 1));
        assert forall|i: int| #![trigger ids[i]] 0 < i < ids.len() implies cache.headers.contains_key(
            ids[i],
        ) && cache.headers[ids[i]] == to[i - 1] && to[i - 1].0 == ids[i - 1] by {
            assert(ids[i] == rest[i - 1]);
            if i > 1 {
                assert(to.skip(1)[i - 2] == to[i - 1]);
                assert(ids[i - 1] == rest[i - 2]);
            }
        }
        ids
    }
}

/// The cache covers a thousand rounds.
pub proof fn cache_covers_a_thousand_rounds()
    ensures
        BLOCK_CACHE_SIZE == 1_000,
{
}

} // verus!
