//! First-in first-out pool of raw transactions, keyed by their SHA-256 digest.
use std::collections::{HashMap, VecDeque};

use bytes::Bytes;
use vstd::prelude::*;

use crate::cosmos_types;
use crate::id_map;
use crate::text;
use crate::txpool::raw;

verus! {

broadcast use vstd::std_specs::hash::group_hash_axioms;

/// The handle of a transaction: the SHA-256 digest of its bytes.
pub type CosmosTxId = [u8; 32];

/// Default upper bound on the number of pending transactions. A pool that has
/// reached its bound turns new transactions away until commits drain it.
pub const DEFAULT_MAX_TXS: usize = 100_000;

/// A pending transaction: its handle and its bytes.
pub type Entry = (Seq<u8>, Seq<u8>);

/// What a configured bound means: a number, or the default where none is given
/// or the text is not one. Zero stands for no bound.
pub open spec fn max_txs_of(setting: Option<Seq<char>>) -> usize {
    match setting {
        Some(s) => match text::u64_of_text(text::trim_of(s)) {
            Some(n) => if n <= usize::MAX {
                n as usize
            } else {
                DEFAULT_MAX_TXS
            },
            None => DEFAULT_MAX_TXS,
        },
        None => DEFAULT_MAX_TXS,
    }
}

/// Reads a configured bound.
pub fn configured_max_txs(setting: Option<&str>) -> (n: usize)
    ensures
        n == max_txs_of(
            match setting {
                Some(s) => Some(s@),
                None => None,
            },
        ),
{
    match setting {
        Some(s) => match text::parse_u64(text::trim(s)) {
            Some(n) => if n <= usize::MAX as u64 {
                n as usize
            } else {
                DEFAULT_MAX_TXS
            },
            None => DEFAULT_MAX_TXS,
        },
        None => DEFAULT_MAX_TXS,
    }
}

/// The handle of a raw transaction.
pub fn cosmos_raw_tx_id(raw: &[u8]) -> (id: CosmosTxId)
    ensures
        id@ == cosmos_types::sha256(raw@),
{
    cosmos_types::sha256_digest(raw)
}

/// Whether a transaction with this handle is pending.
pub open spec fn holds(entries: Seq<Entry>, id: Seq<u8>) -> bool {
    exists|i: int| 0 <= i < entries.len() && (#[trigger] entries[i]).0 == id
}

/// No handle occurs twice.
pub open spec fn distinct(entries: Seq<Entry>) -> bool {
    forall|i: int, j: int|
        0 <= i < j < entries.len() ==> (#[trigger] entries[i]).0 != (#[trigger] entries[j]).0
}

/// Every handle is the digest of its transaction.
pub open spec fn digested(entries: Seq<Entry>) -> bool {
    forall|i: int|
        0 <= i < entries.len() ==> (#[trigger] entries[i]).0 == cosmos_types::sha256(entries[i].1)
}

/// How many pending handles start with these eight bytes.
pub open spec fn short_count(entries: Seq<Entry>, short: u64) -> nat
    decreases entries.len(),
{
    if entries.len() == 0 {
        0
    } else {
        short_count(entries.drop_last(), short) + if id_map::short_id(entries.last().0) == short {
            1nat
        } else {
            0nat
        }
    }
}

/// Whether an index counts the handles that start with these eight bytes.
pub open spec fn indexed(shorts: Map<u64, usize>, entries: Seq<Entry>, short: u64) -> bool {
    if shorts.contains_key(short) {
        shorts[short] == short_count(entries, short) && shorts[short] > 0
    } else {
        short_count(entries, short) == 0
    }
}

/// The number of bytes of all pending transactions.
pub open spec fn total_len(entries: Seq<Entry>) -> nat
    decreases entries.len(),
{
    if entries.len() == 0 {
        0
    } else {
        total_len(entries.drop_last()) + entries.last().1.len()
    }
}

proof fn lemma_count_insert(entries: Seq<Entry>, at: int, e: Entry, short: u64)
    requires
        0 <= at <= entries.len(),
    ensures
        id_map::short_id(e.0) == short ==> short_count(entries.insert(at, e), short)
            == short_count(entries, short) + 1,
        id_map::short_id(e.0) != short ==> short_count(entries.insert(at, e), short)
            == short_count(entries, short),
        total_len(entries.insert(at, e)) == total_len(entries) + e.1.len(),
    decreases entries.len(),
{
    let after = entries.insert(at, e);
    if at == entries.len() {
        assert(after.drop_last() =~= entries);
    } else {
        lemma_count_insert(entries.drop_last(), at, e, short);
        assert(after.drop_last() =~= entries.drop_last().insert(at, e));
        assert(after.last() == entries.last());
    }
}

proof fn lemma_count_positive(entries: Seq<Entry>, at: int)
    requires
        0 <= at < entries.len(),
    ensures
        short_count(entries, id_map::short_id(entries[at].0)) > 0,
    decreases entries.len(),
{
    if at < entries.len() - 1 {
        lemma_count_positive(entries.drop_last(), at);
        assert(entries.drop_last()[at] == entries[at]);
    }
}

proof fn lemma_count_bound(entries: Seq<Entry>, short: u64)
    ensures
        short_count(entries, short) <= entries.len(),
    decreases entries.len(),
{
    if entries.len() > 0 {
        lemma_count_bound(entries.drop_last(), short);
    }
}

proof fn lemma_total_bound(entries: Seq<Entry>)
    requires
        forall|i: int| 0 <= i < entries.len() ==> (#[trigger] entries[i]).1.len() <= usize::MAX,
    ensures
        total_len(entries) <= entries.len() * usize::MAX,
    decreases entries.len(),
{
    if entries.len() > 0 {
        assert forall|i: int| 0 <= i < entries.drop_last().len() implies (
        #[trigger] entries.drop_last()[i]).1.len() <= usize::MAX by {
            assert(entries.drop_last()[i] == entries[i]);
        }
        lemma_total_bound(entries.drop_last());
        assert(entries[entries.len() - 1].1.len() <= usize::MAX);
        assert((entries.len() - 1) * usize::MAX + usize::MAX == entries.len() * usize::MAX)
            by (nonlinear_arith);
    }
}

/// A pool of raw transactions in arrival order, without duplicates.
pub struct IndexedCosmosMempool {
    queue: VecDeque<(CosmosTxId, Bytes)>,
    /// How many pending handles start with the same eight bytes.
    shorts: HashMap<u64, usize>,
    total_bytes: u128,
    max_txs: usize,
}

/// The entries of a queue of transactions.
pub open spec fn entries_of(queue: Seq<(CosmosTxId, Bytes)>) -> Seq<Entry> {
    Seq::new(queue.len(), |i: int| (queue[i].0@, raw::raw_bytes(queue[i].1)))
}

impl View for IndexedCosmosMempool {
    type V = Seq<Entry>;

    closed spec fn view(&self) -> Seq<Entry> {
        entries_of(self.queue@)
    }
}

impl IndexedCosmosMempool {
    /// The bound on the number of transactions; zero for none.
    pub closed spec fn limit(self) -> usize {
        self.max_txs
    }

    /// Handles are distinct and the digests of their transactions, and the
    /// index and the byte count agree with the queue.
    pub closed spec fn wf(self) -> bool {
        &&& distinct(self@)
        &&& digested(self@)
        &&& self.total_bytes == total_len(self@)
        &&& forall|short: u64| #[trigger] indexed(self.shorts@, self@, short)
        &&& forall|i: int| 0 <= i < self@.len() ==> (#[trigger] self@[i]).1.len() <= usize::MAX
    }

    /// Whether the pool has reached its bound.
    pub open spec fn full(self) -> bool {
        self.limit() != 0 && self@.len() >= self.limit()
    }

    /// A pool with the configured bound.
    pub fn new(setting: Option<&str>) -> (pool: Self)
        ensures
            pool.wf(),
            pool@ == Seq::<Entry>::empty(),
            pool.limit() == max_txs_of(
                match setting {
                    Some(s) => Some(s@),
                    None => None,
                },
            ),
    {
        Self::with_max_txs(configured_max_txs(setting))
    }

    /// A pool with an explicit bound; zero for none.
    pub fn with_max_txs(max_txs: usize) -> (pool: Self)
        ensures
            pool.wf(),
            pool@ == Seq::<Entry>::empty(),
            pool.limit() == max_txs,
    {
        let pool = IndexedCosmosMempool {
            queue: VecDeque::new(),
            shorts: HashMap::new(),
            total_bytes: 0,
            max_txs,
        };
        assert(pool@ =~= Seq::<Entry>::empty());
        pool
    }

    /// How many transactions are pending.
    pub fn pending_len(&self) -> (n: usize)
        ensures
            n == self@.len(),
    {
        self.queue.len()
    }

    /// How many bytes the pending transactions have.
    pub fn total_bytes(&self) -> (n: u128)
        requires
            self.wf(),
        ensures
            n == total_len(self@),
    {
        self.total_bytes
    }

    /// Whether the pool has reached its bound.
    pub fn is_full(&self) -> (r: bool)
        ensures
            r == self.full(),
    {
        self.max_txs != 0 && self.queue.len() >= self.max_txs
    }

    /// The position of a handle in the queue.
    fn position(&self, id: &CosmosTxId) -> (r: Option<usize>)
        requires
            self.wf(),
        ensures
            match r {
                Some(i) => i < self@.len() && self@[i as int].0 == id@,
                None => !holds(self@, id@),
            },
    {
        let short: u64 = id_map::short_of(id);
        if !self.shorts.contains_key(&short) {
            proof {
                if holds(self@, id@) {
                    let i = choose|i: int| 0 <= i < self@.len() && (#[trigger] self@[i]).0 == id@;
                    lemma_count_positive(self@, i);
                }
                assert(indexed(self.shorts@, self@, short));
            }
            return None;
        }
        let mut i: usize = 0;
        while i < self.queue.len()
            invariant
                i <= self.queue@.len(),
                forall|j: int| 0 <= j < i ==> (#[trigger] self@[j]).0 != id@,
            decreases self.queue@.len() - i,
        {
            if id_map::same_id(&self.queue[i].0, id) {
                return Some(i);
            }
            i = i + 1;
        }
        None
    }

    /// Puts a new transaction at a position.
    fn insert_at(&mut self, at: usize, id: CosmosTxId, raw: Bytes)
        requires
            old(self).wf(),
            at <= old(self)@.len(),
            !holds(old(self)@, id@),
            id@ == cosmos_types::sha256(raw::raw_bytes(raw)),
        ensures
            final(self).wf(),
            final(self).limit() == old(self).limit(),
            final(self)@ == old(self)@.insert(at as int, (id@, raw::raw_bytes(raw))),
    {
        let ghost before = self@;
        let ghost e: Entry = (id@, raw::raw_bytes(raw));
        let ghost after = before.insert(at as int, e);
        let len: usize = raw::as_slice(&raw).len();
        let short: u64 = id_map::short_of(&id);
        let count_before: usize = self.queue.len();
        let n: usize = match self.shorts.get(&short) {
            Some(n) => *n,
            None => 0,
        };
        proof {
            assert(before.len() == count_before);
            assert(indexed(self.shorts@, before, short));
            lemma_count_bound(before, short);
            lemma_total_bound(before);
            assert(before.len() * usize::MAX <= usize::MAX * usize::MAX) by (nonlinear_arith)
                requires
                    before.len() <= usize::MAX,
            ;
            assert(usize::MAX * usize::MAX + usize::MAX <= u128::MAX) by (nonlinear_arith)
                requires
                    usize::MAX <= 0xffff_ffff_ffff_ffff,
            ;
            lemma_count_insert(before, at as int, e, short);
            lemma_count_bound(after, short);
        }
        let ghost old_shorts = self.shorts@;
        self.queue.insert(at, (id, raw));
        let count_after: usize = self.queue.len();
        assert(after.len() == count_after);
        assert(self@ =~= after);
        self.shorts.insert(short, n + 1);
        self.total_bytes = self.total_bytes + len as u128;
        proof {
            assert forall|s: u64| #[trigger] indexed(self.shorts@, self@, s) by {
                lemma_count_insert(before, at as int, e, s);
                assert(indexed(old_shorts, before, s));
            }
            assert forall|i: int, j: int| 0 <= i < j < self@.len() implies (#[trigger] self@[i]).0
                != (#[trigger] self@[j]).0 by {
                lemma_insert_distinct(before, at as int, e, i, j);
            }
            assert forall|i: int| 0 <= i < self@.len() implies (#[trigger] self@[i]).1.len()
                <= usize::MAX && self@[i].0 == cosmos_types::sha256(self@[i].1) by {
                if i < at {
                    assert(self@[i] == before[i]);
                } else if i > at {
                    assert(self@[i] == before[i - 1]);
                }
            }
        }
    }

    /// Takes out the transaction at a position.
    fn remove_at(&mut self, at: usize) -> (r: (CosmosTxId, Bytes))
        requires
            old(self).wf(),
            at < old(self)@.len(),
        ensures
            final(self).wf(),
            final(self).limit() == old(self).limit(),
            final(self)@ == old(self)@.remove(at as int),
            (r.0@, raw::raw_bytes(r.1)) == old(self)@[at as int],
    {
        let ghost before = self@;
        let ghost e = before[at as int];
        let ghost after = before.remove(at as int);
        let (id, raw) = self.queue.remove(at).unwrap();
        let len: usize = raw::as_slice(&raw).len();
        let short: u64 = id_map::short_of(&id);
        assert(self@ =~= after);
        proof {
            assert(after.insert(at as int, e) =~= before);
            lemma_count_insert(after, at as int, e, short);
            lemma_count_positive(before, at as int);
        }
        let n: usize = match self.shorts.get(&short) {
            Some(n) => *n,
            None => 0,
        };
        let ghost old_shorts = self.shorts@;
        assert(indexed(old_shorts, before, short));
        if n > 1 {
            self.shorts.insert(short, n - 1);
        } else {
            self.shorts.remove(&short);
        }
        self.total_bytes = self.total_bytes - len as u128;
        proof {
            assert forall|s: u64| #[trigger] indexed(self.shorts@, self@, s) by {
                lemma_count_insert(after, at as int, e, s);
                assert(indexed(old_shorts, before, s));
            }
            assert forall|i: int, j: int| 0 <= i < j < self@.len() implies (#[trigger] self@[i]).0
                != (#[trigger] self@[j]).0 by {
                let bi = if i < at {
                    i
                } else {
                    i + 1
                };
                let bj = if j < at {
                    j
                } else {
                    j + 1
                };
                assert(before[bi].0 != before[bj].0);
            }
            assert forall|i: int| 0 <= i < self@.len() implies (#[trigger] self@[i]).1.len()
                <= usize::MAX && self@[i].0 == cosmos_types::sha256(self@[i].1) by {
                if i < at {
                    assert(self@[i] == before[i]);
                } else {
                    assert(self@[i] == before[i + 1]);
                }
            }
        }
        (id, raw)
    }

    /// Adds a transaction at the end. Empty transactions, duplicates, and
    /// everything while the pool is full are turned away.
    pub fn try_push(&mut self, raw: Bytes) -> (accepted: bool)
        requires
            old(self).wf(),
        ensures
            final(self).wf(),
            final(self).limit() == old(self).limit(),
            accepted == admits(*old(self), raw::raw_bytes(raw)),
            final(self)@ == if accepted {
                old(self)@.push(entry_of(raw::raw_bytes(raw)))
            } else {
                old(self)@
            },
    {
        if raw::as_slice(&raw).len() == 0 {
            return false;
        }
        if self.is_full() {
            return false;
        }
        let id: CosmosTxId = cosmos_raw_tx_id(raw::as_slice(&raw));
        if self.position(&id).is_some() {
            return false;
        }
        let at: usize = self.queue.len();
        assert(old(self)@.insert(at as int, entry_of(raw::raw_bytes(raw))) =~= old(self)@.push(
            entry_of(raw::raw_bytes(raw)),
        ));
        self.insert_at(at, id, raw);
        true
    }
}

/// The entry of a raw transaction.
pub open spec fn entry_of(raw: Seq<u8>) -> Entry {
    (cosmos_types::sha256(raw), raw)
}

/// Whether a pool with these entries and this bound takes a transaction in.
pub open spec fn admitted(entries: Seq<Entry>, limit: usize, raw: Seq<u8>) -> bool {
    &&& raw.len() > 0
    &&& !(limit != 0 && entries.len() >= limit)
    &&& !holds(entries, cosmos_types::sha256(raw))
}

/// Whether a pool takes a transaction in.
pub open spec fn admits(pool: IndexedCosmosMempool, raw: Seq<u8>) -> bool {
    admitted(pool@, pool.limit(), raw)
}

proof fn lemma_insert_distinct(before: Seq<Entry>, at: int, e: Entry, i: int, j: int)
    requires
        distinct(before),
        !holds(before, e.0),
        0 <= at <= before.len(),
        0 <= i < j < before.len() + 1,
    ensures
        before.insert(at, e)[i].0 != before.insert(at, e)[j].0,
{
    let bi = if i < at {
        i
    } else {
        i - 1
    };
    let bj = if j < at {
        j
    } else {
        j - 1
    };
    if i != at && j != at {
        assert(before[bi].0 != before[bj].0);
    } else if i == at {
        assert(before[bj].0 != e.0);
    } else {
        assert(before[bi].0 != e.0);
    }
}

/// Whether a block with this many bytes breaks a byte limit. The largest limit
/// is no limit.
pub open spec fn over_limit(bytes: nat, byte_limit: usize) -> bool {
    byte_limit < usize::MAX && bytes > byte_limit
}

/// Whether a proposal takes exactly the first `k` transactions: they respect
/// both limits, and one more would not, or there is none.
pub open spec fn is_proposal_len(
    entries: Seq<Entry>,
    tx_limit: usize,
    byte_limit: usize,
    k: int,
) -> bool {
    &&& 0 <= k <= entries.len()
    &&& k <= tx_limit
    &&& !over_limit(total_len(entries.take(k)), byte_limit)
    &&& k == entries.len() || k == tx_limit || over_limit(
        total_len(entries.take(k + 1)),
        byte_limit,
    )
}

/// The bytes of some entries.
pub open spec fn raws_of(entries: Seq<Entry>) -> Seq<Seq<u8>> {
    Seq::new(entries.len(), |i: int| entries[i].1)
}

/// Copies the bytes of some transactions.
pub fn raw_txs(taken: &Vec<(CosmosTxId, Bytes)>) -> (txs: Vec<Vec<u8>>)
    ensures
        cosmos_types::tx_views(txs@) == raws_of(entries_of(taken@)),
{
    let mut txs: Vec<Vec<u8>> = Vec::new();
    let mut i: usize = 0;
    while i < taken.len()
        invariant
            i <= taken@.len(),
            txs@.len() == i,
            forall|j: int| 0 <= j < i ==> (#[trigger] txs@[j])@ == raw::raw_bytes(taken@[j].1),
        decreases taken@.len() - i,
    {
        txs.push(vstd::slice::slice_to_vec(raw::as_slice(&taken[i].1)));
        i = i + 1;
    }
    assert(cosmos_types::tx_views(txs@) =~= raws_of(entries_of(taken@)));
    txs
}

/// The pool after taken transactions went back to its front in their order;
/// those that are pending again stay where they are.
pub open spec fn restored(entries: Seq<Entry>, taken: Seq<Entry>) -> Seq<Entry>
    decreases taken.len(),
{
    if taken.len() == 0 {
        entries
    } else {
        let e = taken.last();
        restored(
            if holds(entries, e.0) {
                entries
            } else {
                seq![e] + entries
            },
            taken.drop_last(),
        )
    }
}

/// The pool after raw transactions went to its front one by one; those that
/// are pending stay where they are.
pub open spec fn requeued(entries: Seq<Entry>, raw_txs: Seq<Seq<u8>>) -> Seq<Entry>
    decreases raw_txs.len(),
{
    if raw_txs.len() == 0 {
        entries
    } else {
        let before = requeued(entries, raw_txs.drop_last());
        let e = entry_of(raw_txs.last());
        if holds(before, e.0) {
            before
        } else {
            seq![e] + before
        }
    }
}

proof fn lemma_holds_front(entries: Seq<Entry>, e: Entry, id: Seq<u8>)
    ensures
        holds(seq![e] + entries, id) <==> e.0 == id || holds(entries, id),
{
    let after = seq![e] + entries;
    if holds(entries, id) {
        let i = choose|i: int| 0 <= i < entries.len() && (#[trigger] entries[i]).0 == id;
        assert(after[i + 1].0 == id);
    }
    if e.0 == id {
        assert(after[0].0 == id);
    }
    if holds(after, id) {
        let i = choose|i: int| 0 <= i < after.len() && (#[trigger] after[i]).0 == id;
        if i > 0 {
            assert(entries[i - 1].0 == id);
        }
    }
}

/// What is pending stays so when taken transactions go back.
proof fn lemma_restored_keeps(entries: Seq<Entry>, taken: Seq<Entry>, id: Seq<u8>)
    requires
        holds(entries, id),
    ensures
        holds(restored(entries, taken), id),
    decreases taken.len(),
{
    if taken.len() > 0 {
        let e = taken.last();
        lemma_holds_front(entries, e, id);
        lemma_restored_keeps(
            if holds(entries, e.0) {
                entries
            } else {
                seq![e] + entries
            },
            taken.drop_last(),
            id,
        );
    }
}

/// Taken transactions are pending once they went back.
pub proof fn lemma_restored_holds(entries: Seq<Entry>, taken: Seq<Entry>, i: int)
    requires
        0 <= i < taken.len(),
    ensures
        holds(restored(entries, taken), taken[i].0),
    decreases taken.len(),
{
    let e = taken.last();
    let next = if holds(entries, e.0) {
        entries
    } else {
        seq![e] + entries
    };
    lemma_holds_front(entries, e, e.0);
    if i == taken.len() - 1 {
        lemma_restored_keeps(next, taken.drop_last(), e.0);
    } else {
        lemma_restored_holds(next, taken.drop_last(), i);
    }
}

/// Raw transactions are pending once they were put to the front.
pub proof fn lemma_requeued_holds(entries: Seq<Entry>, raw_txs: Seq<Seq<u8>>, i: int)
    requires
        0 <= i < raw_txs.len(),
    ensures
        holds(requeued(entries, raw_txs), cosmos_types::sha256(raw_txs[i])),
    decreases raw_txs.len(),
{
    let before = requeued(entries, raw_txs.drop_last());
    let e = entry_of(raw_txs.last());
    let id = cosmos_types::sha256(raw_txs[i]);
    lemma_holds_front(before, e, id);
    if i < raw_txs.len() - 1 {
        lemma_requeued_holds(entries, raw_txs.drop_last(), i);
    }
}

/// The entries with other handles, in their order.
pub open spec fn without(entries: Seq<Entry>, id: Seq<u8>) -> Seq<Entry>
    decreases entries.len(),
{
    if entries.len() == 0 {
        entries
    } else if entries.last().0 == id {
        without(entries.drop_last(), id)
    } else {
        without(entries.drop_last(), id).push(entries.last())
    }
}

proof fn lemma_without_absent(entries: Seq<Entry>, id: Seq<u8>)
    requires
        !holds(entries, id),
    ensures
        without(entries, id) == entries,
    decreases entries.len(),
{
    if entries.len() > 0 {
        assert(entries[entries.len() - 1].0 != id);
        assert(!holds(entries.drop_last(), id)) by {
            if holds(entries.drop_last(), id) {
                let i = choose|i: int|
                    0 <= i < entries.drop_last().len() && (#[trigger] entries.drop_last()[i]).0
                        == id;
                assert(entries[i].0 == id);
            }
        }
        lemma_without_absent(entries.drop_last(), id);
        assert(entries.drop_last().push(entries.last()) =~= entries);
    }
}

proof fn lemma_without_remove(entries: Seq<Entry>, at: int)
    requires
        distinct(entries),
        0 <= at < entries.len(),
    ensures
        without(entries, entries[at].0) == entries.remove(at),
    decreases entries.len(),
{
    let id = entries[at].0;
    let init = entries.drop_last();
    assert(distinct(init)) by {
        assert forall|i: int, j: int| 0 <= i < j < init.len() implies (#[trigger] init[i]).0 != (
        #[trigger] init[j]).0 by {
            assert(entries[i].0 != entries[j].0);
        }
    }
    if at == entries.len() - 1 {
        assert(!holds(init, id)) by {
            if holds(init, id) {
                let i = choose|i: int| 0 <= i < init.len() && (#[trigger] init[i]).0 == id;
                assert(entries[i].0 != entries[at].0);
            }
        }
        lemma_without_absent(init, id);
        assert(entries.remove(at) =~= init);
    } else {
        lemma_without_remove(init, at);
        assert(entries[at].0 != entries[entries.len() - 1].0);
        assert(entries.remove(at) =~= init.remove(at).push(entries.last()));
    }
}

/// Putting back what a proposal took restores the pool.
pub proof fn drain_then_restore(entries: Seq<Entry>, k: int)
    requires
        distinct(entries),
        0 <= k <= entries.len(),
    ensures
        restored(entries.skip(k), entries.take(k)) == entries,
    decreases k,
{
    if k == 0 {
        assert(entries.skip(0) =~= entries);
    } else {
        let e = entries[k - 1];
        assert(entries.take(k).last() == e);
        assert(entries.take(k).drop_last() =~= entries.take(k - 1));
        assert(!holds(entries.skip(k), e.0)) by {
            if holds(entries.skip(k), e.0) {
                let i = choose|i: int|
                    0 <= i < entries.skip(k).len() && (#[trigger] entries.skip(k)[i]).0 == e.0;
                assert(entries[k - 1].0 != entries[k + i].0);
            }
        }
        assert(seq![e] + entries.skip(k) =~= entries.skip(k - 1));
        drain_then_restore(entries, k - 1);
    }
}

/// A proposal takes a prefix of one length only.
pub proof fn proposal_len_unique(
    entries: Seq<Entry>,
    tx_limit: usize,
    byte_limit: usize,
    j: int,
    k: int,
)
    requires
        is_proposal_len(entries, tx_limit, byte_limit, j),
        is_proposal_len(entries, tx_limit, byte_limit, k),
    ensures
        j == k,
{
    if j < k {
        lemma_total_monotone(entries, j + 1, k);
    } else if k < j {
        lemma_total_monotone(entries, k + 1, j);
    }
}

proof fn lemma_total_monotone(entries: Seq<Entry>, j: int, k: int)
    requires
        0 <= j <= k <= entries.len(),
    ensures
        total_len(entries.take(j)) <= total_len(entries.take(k)),
    decreases k - j,
{
    if j < k {
        lemma_total_monotone(entries, j, k - 1);
        assert(entries.take(k).drop_last() =~= entries.take(k - 1));
    }
}

/// No two pending transactions have the same handle.
pub proof fn pending_are_distinct(pool: IndexedCosmosMempool)
    requires
        pool.wf(),
    ensures
        distinct(pool@),
{
}

/// Every pending transaction is filed under the digest of its bytes.
pub proof fn handles_are_digests(pool: IndexedCosmosMempool)
    requires
        pool.wf(),
    ensures
        digested(pool@),
{
}

/// A transaction that was taken in is not taken in a second time.
pub proof fn no_duplicates(before: IndexedCosmosMempool, after: IndexedCosmosMempool, raw: Seq<u8>)
    requires
        admits(before, raw),
        after@ == before@.push(entry_of(raw)),
    ensures
        !admits(after, raw),
{
    assert(after@[before@.len() as int].0 == cosmos_types::sha256(raw));
}

/// A pool that respects its bound still does after a transaction was offered.
pub proof fn bound_is_kept(before: IndexedCosmosMempool, after: IndexedCosmosMempool, raw: Seq<u8>)
    requires
        before.limit() != 0,
        before@.len() <= before.limit(),
        after.limit() == before.limit(),
        after@ == if admits(before, raw) {
            before@.push(entry_of(raw))
        } else {
            before@
        },
    ensures
        after@.len() <= after.limit(),
{
}

/// Removing a transaction right after it was taken in leaves the pool as it was.
pub proof fn push_then_remove(entries: Seq<Entry>, raw: Seq<u8>)
    requires
        distinct(entries),
        !holds(entries, cosmos_types::sha256(raw)),
    ensures
        without(entries.push(entry_of(raw)), cosmos_types::sha256(raw)) == entries,
{
    lemma_without_absent(entries, cosmos_types::sha256(raw));
    assert(entries.push(entry_of(raw)).drop_last() =~= entries);
}

impl IndexedCosmosMempool {
    /// Takes transactions from the front for a block of at most `tx_limit`
    /// transactions and `byte_limit` bytes. Returns their bytes, and the same
    /// transactions with their handles so that they can be put back.
    pub fn drain_for_proposal(&mut self, tx_limit: usize, byte_limit: usize) -> (r: (
        Vec<Vec<u8>>,
        Vec<(CosmosTxId, Bytes)>,
    ))
        requires
            old(self).wf(),
        ensures
            final(self).wf(),
            final(self).limit() == old(self).limit(),
            is_proposal_len(old(self)@, tx_limit, byte_limit, r.1@.len() as int),
            entries_of(r.1@) == old(self)@.take(r.1@.len() as int),
            digested(entries_of(r.1@)),
            cosmos_types::tx_views(r.0@) == raws_of(entries_of(r.1@)),
            final(self)@ == old(self)@.skip(r.1@.len() as int),
    {
        let ghost start = self@;
        let mut candidate_txs: Vec<Vec<u8>> = Vec::new();
        let mut taken: Vec<(CosmosTxId, Bytes)> = Vec::new();
        let mut used_bytes: usize = 0;
        assert(start.skip(0) =~= start);
        assert(start.take(0) =~= Seq::<Entry>::empty());
        assert(entries_of(taken@) =~= start.take(0));
        assert(cosmos_types::tx_views(candidate_txs@) =~= raws_of(start.take(0)));
        while taken.len() < tx_limit
            invariant
                self.wf(),
                self.limit() == old(self).limit(),
                start == old(self)@,
                taken@.len() <= start.len(),
                taken@.len() <= tx_limit,
                candidate_txs@.len() == taken@.len(),
                self@ == start.skip(taken@.len() as int),
                entries_of(taken@) == start.take(taken@.len() as int),
                cosmos_types::tx_views(candidate_txs@) == raws_of(start.take(taken@.len() as int)),
                used_bytes == if total_len(start.take(taken@.len() as int)) <= usize::MAX {
                    total_len(start.take(taken@.len() as int))
                } else {
                    usize::MAX as nat
                },
                !over_limit(total_len(start.take(taken@.len() as int)), byte_limit),
            ensures
                taken@.len() == start.len() || taken@.len() == tx_limit || over_limit(
                    total_len(start.take(taken@.len() as int + 1)),
                    byte_limit,
                ),
            decreases tx_limit - taken@.len(),
        {
            let ghost k = taken@.len() as int;
            if self.queue.len() == 0 {
                assert(self@.len() == 0);
                break;
            }
            assert(self@[0] == start[k]);
            let len: usize = raw::as_slice(&self.queue[0].1).len();
            let next_bytes: usize = used_bytes.saturating_add(len);
            proof {
                assert(start.take(k + 1).drop_last() =~= start.take(k));
                assert(start.take(k + 1).last() == start[k]);
            }
            if next_bytes > byte_limit {
                break;
            }
            let (id, tx) = self.remove_at(0);
            assert(self@ =~= start.skip(k + 1));
            used_bytes = next_bytes;
            let ghost txs_before = candidate_txs@;
            let ghost taken_before = taken@;
            candidate_txs.push(vstd::slice::slice_to_vec(raw::as_slice(&tx)));
            taken.push((id, tx));
            proof {
                assert(entries_of(taken@) =~= entries_of(taken_before).push(start[k]));
                assert(entries_of(taken@) =~= start.take(k + 1));
                assert(cosmos_types::tx_views(candidate_txs@) =~= cosmos_types::tx_views(
                    txs_before,
                ).push(start[k].1));
                assert(raws_of(start.take(k + 1)) =~= raws_of(start.take(k)).push(start[k].1));
            }
        }
        (candidate_txs, taken)
    }

    /// Puts taken transactions back to the front in their order; those that
    /// are pending again are skipped.
    pub fn restore_taken_front(&mut self, taken: Vec<(CosmosTxId, Bytes)>)
        requires
            old(self).wf(),
            digested(entries_of(taken@)),
        ensures
            final(self).wf(),
            final(self).limit() == old(self).limit(),
            final(self)@ == restored(old(self)@, entries_of(taken@)),
    {
        let mut rest: Vec<(CosmosTxId, Bytes)> = taken;
        while rest.len() > 0
            invariant
                self.wf(),
                self.limit() == old(self).limit(),
                digested(entries_of(rest@)),
                restored(self@, entries_of(rest@)) == restored(old(self)@, entries_of(taken@)),
            decreases rest@.len(),
        {
            let ghost before = rest@;
            let (id, raw) = rest.pop().unwrap();
            let ghost e: Entry = (id@, raw::raw_bytes(raw));
            assert(entries_of(before).last() == e);
            assert(entries_of(before).drop_last() =~= entries_of(rest@));
            assert(entries_of(before)[rest@.len() as int] == e);
            match self.position(&id) {
                Some(i) => {
                    assert(holds(self@, id@));
                },
                None => {
                    assert(self@.insert(0, e) =~= seq![e] + self@);
                    self.insert_at(0, id, raw);
                },
            }
        }
    }

    /// Puts raw transactions to the front one by one, so that the last one
    /// ends up first; those that are pending are skipped.
    pub fn requeue_front_raw_in_candidate_order(&mut self, raw_txs: &Vec<Vec<u8>>)
        requires
            old(self).wf(),
        ensures
            final(self).wf(),
            final(self).limit() == old(self).limit(),
            final(self)@ == requeued(old(self)@, cosmos_types::tx_views(raw_txs@)),
    {
        let ghost views = cosmos_types::tx_views(raw_txs@);
        let mut i: usize = 0;
        assert(views.take(0) =~= Seq::<Seq<u8>>::empty());
        while i < raw_txs.len()
            invariant
                self.wf(),
                self.limit() == old(self).limit(),
                i <= raw_txs@.len(),
                views == cosmos_types::tx_views(raw_txs@),
                self@ == requeued(old(self)@, views.take(i as int)),
            decreases raw_txs@.len() - i,
        {
            let bytes: Vec<u8> = cosmos_types::copy_bytes(&raw_txs[i]);
            let id: CosmosTxId = cosmos_raw_tx_id(bytes.as_slice());
            let ghost e = entry_of(views[i as int]);
            assert(views.take(i + 1).drop_last() =~= views.take(i as int));
            assert(views.take(i + 1).last() == views[i as int]);
            match self.position(&id) {
                Some(at) => {
                    assert(holds(self@, id@));
                },
                None => {
                    assert(self@.insert(0, e) =~= seq![e] + self@);
                    self.insert_at(0, id, raw::from_vec(bytes));
                },
            }
            i = i + 1;
        }
        assert(views.take(i as int) =~= views);
    }

    /// Removes the transaction with these bytes.
    pub fn remove_by_raw(&mut self, raw: &[u8]) -> (removed: bool)
        requires
            old(self).wf(),
        ensures
            final(self).wf(),
            final(self).limit() == old(self).limit(),
            removed == (raw@.len() > 0 && holds(old(self)@, cosmos_types::sha256(raw@))),
            final(self)@ == if removed {
                without(old(self)@, cosmos_types::sha256(raw@))
            } else {
                old(self)@
            },
    {
        if raw.len() == 0 {
            return false;
        }
        let id: CosmosTxId = cosmos_raw_tx_id(raw);
        match self.position(&id) {
            Some(i) => {
                proof {
                    lemma_without_remove(self@, i as int);
                    assert(holds(self@, id@));
                }
                let _ = self.remove_at(i);
                true
            },
            None => false,
        }
    }
}

/// The handles of the transactions of a block; empty ones have none.
pub open spec fn tx_ids(txs: Seq<Seq<u8>>) -> Set<Seq<u8>> {
    Set::new(
        |id: Seq<u8>|
            exists|i: int|
                0 <= i < txs.len() && (#[trigger] txs[i]).len() > 0 && cosmos_types::sha256(txs[i])
                    == id,
    )
}

/// The entries whose handles are not in a set, in their order.
pub open spec fn keep_others(entries: Seq<Entry>, gone: Set<Seq<u8>>) -> Seq<Entry>
    decreases entries.len(),
{
    if entries.len() == 0 {
        entries
    } else if gone.contains(entries.last().0) {
        keep_others(entries.drop_last(), gone)
    } else {
        keep_others(entries.drop_last(), gone).push(entries.last())
    }
}

/// Removing nothing changes nothing.
pub proof fn lemma_keep_all(entries: Seq<Entry>)
    ensures
        keep_others(entries, Set::empty()) == entries,
    decreases entries.len(),
{
    if entries.len() > 0 {
        lemma_keep_all(entries.drop_last());
        assert(entries.drop_last().push(entries.last()) =~= entries);
    }
}

/// Removing two sets of transactions one after the other removes their union.
pub proof fn lemma_keep_twice(entries: Seq<Entry>, a: Set<Seq<u8>>, b: Set<Seq<u8>>)
    ensures
        keep_others(keep_others(entries, a), b) == keep_others(entries, a.union(b)),
    decreases entries.len(),
{
    if entries.len() > 0 {
        let init = entries.drop_last();
        lemma_keep_twice(init, a, b);
        if !a.contains(entries.last().0) {
            assert(keep_others(init, a).push(entries.last()).drop_last() =~= keep_others(init, a));
        }
    }
}

proof fn lemma_without_is_keep(entries: Seq<Entry>, id: Seq<u8>)
    ensures
        without(entries, id) == keep_others(entries, set![id]),
    decreases entries.len(),
{
    if entries.len() > 0 {
        lemma_without_is_keep(entries.drop_last(), id);
    }
}

/// No transaction of a purged block is pending any more, and every other
/// pending transaction still is.
pub proof fn purged_are_gone(entries: Seq<Entry>, gone: Set<Seq<u8>>, id: Seq<u8>)
    ensures
        holds(keep_others(entries, gone), id) <==> holds(entries, id) && !gone.contains(id),
    decreases entries.len(),
{
    let after = keep_others(entries, gone);
    if entries.len() > 0 {
        let init = entries.drop_last();
        let last = entries.last();
        purged_are_gone(init, gone, id);
        assert(holds(entries, id) <==> holds(init, id) || last.0 == id) by {
            lemma_holds_push(init, last, id);
            assert(init.push(last) =~= entries);
        }
        if !gone.contains(last.0) {
            lemma_holds_push(keep_others(init, gone), last, id);
        }
    }
}

proof fn lemma_holds_push(entries: Seq<Entry>, e: Entry, id: Seq<u8>)
    ensures
        holds(entries.push(e), id) <==> holds(entries, id) || e.0 == id,
{
    let after = entries.push(e);
    if holds(entries, id) {
        let i = choose|i: int| 0 <= i < entries.len() && (#[trigger] entries[i]).0 == id;
        assert(after[i].0 == id);
    }
    if e.0 == id {
        assert(after[entries.len() as int].0 == id);
    }
    if holds(after, id) {
        let i = choose|i: int| 0 <= i < after.len() && (#[trigger] after[i]).0 == id;
        if i < entries.len() {
            assert(entries[i].0 == id);
        }
    }
}

impl IndexedCosmosMempool {
    /// Removes the transactions of a committed block.
    pub fn purge(&mut self, txs: &Vec<Vec<u8>>)
        requires
            old(self).wf(),
        ensures
            final(self).wf(),
            final(self).limit() == old(self).limit(),
            final(self)@ == keep_others(old(self)@, tx_ids(cosmos_types::tx_views(txs@))),
    {
        let ghost views = cosmos_types::tx_views(txs@);
        let ghost start = self@;
        let mut i: usize = 0;
        proof {
            assert(tx_ids(views.take(0)) =~= Set::empty());
            lemma_keep_all(start);
        }
        while i < txs.len()
            invariant
                i <= txs@.len(),
                views == cosmos_types::tx_views(txs@),
                start == old(self)@,
                self.wf(),
                self.limit() == old(self).limit(),
                self@ == keep_others(start, tx_ids(views.take(i as int))),
            decreases txs@.len() - i,
        {
            let ghost before = self@;
            let ghost seen = tx_ids(views.take(i as int));
            let ghost raw = views[i as int];
            let removed: bool = self.remove_by_raw(txs[i].as_slice());
            proof {
                let id = cosmos_types::sha256(raw);
                let next = tx_ids(views.take(i + 1));
                assert forall|x: Seq<u8>|
                    next.contains(x) <==> seen.contains(x) || (raw.len() > 0 && x == id) by {
                    if seen.contains(x) {
                        let j = choose|j: int|
                            0 <= j < i && (#[trigger] views.take(i as int)[j]).len() > 0
                                && cosmos_types::sha256(views.take(i as int)[j]) == x;
                        assert(views.take(i + 1)[j] == views.take(i as int)[j]);
                    }
                    if raw.len() > 0 && x == id {
                        assert(views.take(i + 1)[i as int] == raw);
                    }
                    if next.contains(x) {
                        let j = choose|j: int|
                            0 <= j < i + 1 && (#[trigger] views.take(i + 1)[j]).len() > 0
                                && cosmos_types::sha256(views.take(i + 1)[j]) == x;
                        if j < i {
                            assert(views.take(i as int)[j] == views.take(i + 1)[j]);
                        }
                    }
                }
                if raw.len() > 0 {
                    assert(next =~= seen.union(set![id]));
                    lemma_keep_twice(start, seen, set![id]);
                    lemma_without_is_keep(before, id);
                    if !removed {
                        lemma_without_absent(before, id);
                    }
                } else {
                    assert(next =~= seen);
                }
            }
            i = i + 1;
        }
        assert(views.take(i as int) =~= views);
    }
}

/// A transaction is admitted if and only if it is not empty, there is room (a
/// limit of zero is none), and no pending one has its digest.
pub proof fn only_new_transactions_are_admitted(entries: Seq<Entry>, limit: usize, raw: Seq<u8>)
    ensures
        admitted(entries, limit, raw) <==> {
            &&& raw.len() > 0
            &&& limit == 0 || entries.len() < limit
            &&& forall|i: int|
                0 <= i < entries.len() ==> (#[trigger] entries[i]).0 != cosmos_types::sha256(raw)
        },
        entry_of(raw).0 == cosmos_types::sha256(raw),
        entry_of(raw).1 == raw,
{
    if holds(entries, cosmos_types::sha256(raw)) {
        let i = choose|i: int|
            0 <= i < entries.len() && (#[trigger] entries[i]).0 == cosmos_types::sha256(raw);
        assert(entries[i].0 == cosmos_types::sha256(raw));
    }
}

/// The bytes of two queues add up, and those of one transaction are its length.
pub proof fn bytes_add_up(a: Seq<Entry>, b: Seq<Entry>, e: Entry)
    ensures
        total_len(a + b) == total_len(a) + total_len(b),
        total_len(seq![e]) == e.1.len(),
        total_len(Seq::empty()) == 0,
    decreases b.len(),
{
    reveal_with_fuel(total_len, 2);
    assert(seq![e].drop_last() =~= Seq::empty());
    if b.len() > 0 {
        bytes_add_up(a, b.drop_last(), e);
        assert((a + b).drop_last() =~= a + b.drop_last());
    } else {
        assert(a + b =~= a);
    }
}

/// A proposal takes transactions from the front: no more than it may, within
/// the bytes where these are limited, and it leaves the next one only where
/// that one would be too many or too long.
pub proof fn proposals_take_what_fits(
    entries: Seq<Entry>,
    tx_limit: usize,
    byte_limit: usize,
    k: int,
)
    requires
        0 <= k <= entries.len(),
    ensures
        is_proposal_len(entries, tx_limit, byte_limit, k) <==> {
            &&& k <= tx_limit
            &&& byte_limit == usize::MAX || total_len(entries.take(k)) <= byte_limit
            &&& k < entries.len() && k < tx_limit ==> byte_limit != usize::MAX && total_len(
                entries.take(k),
            ) + entries[k].1.len() > byte_limit
        },
{
    if k < entries.len() {
        assert(entries.take(k + 1).drop_last() =~= entries.take(k));
        assert(entries.take(k + 1).last() == entries[k]);
    }
}

/// Transactions that go back and are not pending stand in front, in the order
/// in which they were taken.
pub proof fn restored_stand_in_front(entries: Seq<Entry>, taken: Seq<Entry>)
    requires
        distinct(taken),
        forall|i: int, j: int|
            0 <= i < taken.len() && 0 <= j < entries.len() ==> (#[trigger] taken[i]).0 != (
            #[trigger] entries[j]).0,
    ensures
        restored(entries, taken) == taken + entries,
    decreases taken.len(),
{
    if taken.len() == 0 {
        assert(taken + entries =~= entries);
    } else {
        let e = taken.last();
        let init = taken.drop_last();
        assert(taken[taken.len() - 1] == e);
        let next = seq![e] + entries;
        assert forall|i: int, j: int| 0 <= i < init.len() && 0 <= j < next.len() implies (
        #[trigger] init[i]).0 != (#[trigger] next[j]).0 by {
            assert(init[i] == taken[i]);
            if j > 0 {
                assert(next[j] == entries[j - 1]);
            }
        }
        assert forall|i: int, j: int| 0 <= i < j < init.len() implies (#[trigger] init[i]).0 != (
        #[trigger] init[j]).0 by {
            assert(taken[i].0 != taken[j].0);
        }
        restored_stand_in_front(next, init);
        assert(init + next =~= taken + entries);
    }
}

/// A transaction that is pending already does not come back a second time.
pub proof fn pending_ones_do_not_come_back(
    entries: Seq<Entry>,
    before: Seq<Entry>,
    e: Entry,
    after: Seq<Entry>,
    at: int,
)
    requires
        0 <= at < entries.len(),
        entries[at].0 == e.0,
    ensures
        restored(entries, before + seq![e] + after) == restored(entries, before + after),
    decreases after.len(),
{
    let all = before + seq![e] + after;
    if after.len() == 0 {
        assert(all.drop_last() =~= before);
        assert(all.last() == e);
        assert(before + after =~= before);
    } else {
        let last = after.last();
        assert(all.drop_last() =~= before + seq![e] + after.drop_last());
        assert((before + after).drop_last() =~= before + after.drop_last());
        if holds(entries, last.0) {
            pending_ones_do_not_come_back(entries, before, e, after.drop_last(), at);
        } else {
            let next = seq![last] + entries;
            assert(next[at + 1] == entries[at]);
            pending_ones_do_not_come_back(next, before, e, after.drop_last(), at + 1);
        }
    }
}

/// Transactions that are queued again and are not pending stand in front, the
/// last one first.
pub proof fn requeued_stand_in_front(entries: Seq<Entry>, raw_txs: Seq<Seq<u8>>)
    requires
        forall|i: int, j: int|
            0 <= i < raw_txs.len() && 0 <= j < entries.len() ==> cosmos_types::sha256(
                #[trigger] raw_txs[i],
            ) != (#[trigger] entries[j]).0,
        forall|i: int, j: int|
            0 <= i < j < raw_txs.len() ==> cosmos_types::sha256(#[trigger] raw_txs[i])
                != cosmos_types::sha256(#[trigger] raw_txs[j]),
    ensures
        requeued(entries, raw_txs) == Seq::new(
            raw_txs.len(),
            |i: int|
                (
                    cosmos_types::sha256(raw_txs[raw_txs.len() - 1 - i]),
                    raw_txs[raw_txs.len() - 1 - i],
                ),
        ) + entries,
    decreases raw_txs.len(),
{
    let front = Seq::new(
        raw_txs.len(),
        |i: int|
            (
                cosmos_types::sha256(raw_txs[raw_txs.len() - 1 - i]),
                raw_txs[raw_txs.len() - 1 - i],
            ),
    );
    if raw_txs.len() == 0 {
        assert(front + entries =~= entries);
    } else {
        let init = raw_txs.drop_last();
        let raw = raw_txs.last();
        assert(raw_txs[raw_txs.len() - 1] == raw);
        assert forall|i: int, j: int|
            0 <= i < init.len() && 0 <= j < entries.len() implies cosmos_types::sha256(
            #[trigger] init[i],
        ) != (#[trigger] entries[j]).0 by {
            assert(init[i] == raw_txs[i]);
        }
        assert forall|i: int, j: int| 0 <= i < j < init.len() implies cosmos_types::sha256(
            #[trigger] init[i],
        ) != cosmos_types::sha256(#[trigger] init[j]) by {
            assert(init[i] == raw_txs[i] && init[j] == raw_txs[j]);
        }
        requeued_stand_in_front(entries, init);
        let before = requeued(entries, init);
        assert(!holds(before, cosmos_types::sha256(raw))) by {
            if holds(before, cosmos_types::sha256(raw)) {
                let i = choose|i: int|
                    0 <= i < before.len() && (#[trigger] before[i]).0 == cosmos_types::sha256(raw);
                if i < init.len() {
                    let j = init.len() - 1 - i;
                    assert(before[i].0 == cosmos_types::sha256(init[j]));
                    assert(init[j] == raw_txs[j]);
                } else {
                    assert(before[i] == entries[i - init.len()]);
                }
            }
        }
        assert(front + entries =~= seq![entry_of(raw)] + before);
    }
}

/// Queueing a pending transaction again changes nothing.
pub proof fn pending_ones_are_not_requeued(entries: Seq<Entry>, raw_txs: Seq<Seq<u8>>, raw: Seq<u8>)
    ensures
        (exists|i: int|
            0 <= i < requeued(entries, raw_txs).len() && (#[trigger] requeued(
                entries,
                raw_txs,
            )[i]).0 == cosmos_types::sha256(raw)) ==> requeued(entries, raw_txs.push(raw))
            == requeued(entries, raw_txs),
{
    assert(raw_txs.push(raw).drop_last() =~= raw_txs);
}

/// Whether `places` are the places of the kept entries: in order, each with a
/// handle that is not gone, and with every such place among them.
pub open spec fn kept_at(
    places: Seq<int>,
    entries: Seq<Entry>,
    gone: Set<Seq<u8>>,
    kept: Seq<Entry>,
) -> bool {
    &&& places.len() == kept.len()
    &&& forall|j: int|
        #![trigger places[j]]
        0 <= j < places.len() ==> 0 <= places[j] < entries.len() && !gone.contains(
            entries[places[j]].0,
        ) && kept[j] == entries[places[j]]
    &&& forall|j: int, k: int|
        0 <= j < k < places.len() ==> #[trigger] places[j] < #[trigger] places[k]
    &&& forall|i: int|
        0 <= i < entries.len() && !gone.contains((#[trigger] entries[i]).0) ==> places.contains(i)
}

/// A purge keeps exactly the entries whose handles are not gone, as they were
/// and in their order.
pub proof fn other_entries_are_kept(entries: Seq<Entry>, gone: Set<Seq<u8>>) -> (places: Seq<int>)
    ensures
        kept_at(places, entries, gone, keep_others(entries, gone)),
    decreases entries.len(),
{
    if entries.len() == 0 {
        Seq::empty()
    } else {
        let last = entries.len() - 1;
        let init = entries.drop_last();
        let before = other_entries_are_kept(init, gone);
        let kept = keep_others(entries, gone);
        let places = if gone.contains(entries.last().0) {
            before
        } else {
            before.push(last)
        };
        assert forall|j: int|
            #![trigger places[j]]
            0 <= j < places.len() implies 0 <= places[j] < entries.len() && !gone.contains(
            entries[places[j]].0,
        ) && kept[j] == entries[places[j]] by {
            if j < before.len() {
                assert(places[j] == before[j]);
                assert(init[before[j]] == entries[before[j]]);
            }
        }
        assert forall|j: int, k: int| 0 <= j < k < places.len() implies #[trigger] places[j]
            < #[trigger] places[k] by {
            assert(places[j] == before[j]);
            if k < before.len() {
                assert(places[k] == before[k]);
            }
        }
        assert forall|i: int|
            0 <= i < entries.len() && !gone.contains(
                (#[trigger] entries[i]).0,
            ) implies places.contains(i) by {
            if i < last {
                assert(init[i] == entries[i]);
                assert(before.contains(i));
                let j = before.index_of(i);
                assert(places[j] == i);
            } else {
                assert(places[places.len() - 1] == i);
            }
        }
        places
    }
}

/// Taking out one handle keeps exactly the entries with other handles, as they
/// were and in their order.
pub proof fn other_handles_are_kept(entries: Seq<Entry>, id: Seq<u8>) -> (places: Seq<int>)
    ensures
        kept_at(places, entries, set![id], without(entries, id)),
{
    lemma_without_is_keep(entries, id);
    other_entries_are_kept(entries, set![id])
}

/// The handles of some transactions are the digests of those that are not
/// empty.
pub proof fn handles_of_transactions(txs: Seq<Seq<u8>>, id: Seq<u8>, at: int)
    requires
        0 <= at < txs.len(),
    ensures
        txs[at].len() > 0 ==> tx_ids(txs).contains(cosmos_types::sha256(txs[at])),
        (forall|i: int|
            0 <= i < txs.len() && (#[trigger] txs[i]).len() > 0 ==> cosmos_types::sha256(txs[i])
                != id) ==> !tx_ids(txs).contains(id),
{
}

/// The pool holds a hundred thousand transactions, unless the setting is a
/// number that fits, with or without white space around it.
pub proof fn settings_limit_the_pool(
    n: usize,
    before: Seq<char>,
    after: Seq<char>,
    s: Seq<char>,
    at: int,
)
    requires
        forall|i: int| 0 <= i < before.len() ==> text::is_white(#[trigger] before[i]),
        forall|i: int| 0 <= i < after.len() ==> text::is_white(#[trigger] after[i]),
    ensures
        max_txs_of(None) == 100_000,
        max_txs_of(Some(before + text::decimal_text(n as nat) + after)) == n,
        text::u64_of_text(text::trim_of(s)) matches Some(read) ==> read <= usize::MAX ==> max_txs_of(
            Some(s),
        ) == read,
        text::u64_of_text(text::trim_of(s)) matches Some(read) ==> read > usize::MAX ==> max_txs_of(
            Some(s),
        ) == 100_000,
        text::u64_of_text(text::trim_of(s)) is None ==> max_txs_of(Some(s)) == 100_000,
        0 <= at < s.len() && !text::is_white(s[at]) && !('0' <= s[at] && s[at] <= '9') && s[at]
            != '+' ==> max_txs_of(Some(s)) == 100_000,
{
    let digits = text::decimal_text(n as nat);
    let all = before + digits + after;
    text::lemma_decimal_text(n as nat);
    text::u64_text_roundtrip(n as u64);
    let ends = text::trimming_cuts_white_space(all);
    assert(text::is_digit(digits[0]) && text::is_digit(digits[digits.len() - 1]));
    assert(all[before.len() as int] == digits[0]);
    assert(all[before.len() + digits.len() - 1] == digits[digits.len() - 1]);
    assert(!text::is_white(all[before.len() as int]));
    assert(!text::is_white(all[before.len() + digits.len() - 1]));
    assert(ends.0 <= before.len() && before.len() + digits.len() <= ends.1);
    if ends.0 < before.len() {
        assert(all[ends.0] == before[ends.0]);
    }
    if ends.1 > before.len() + digits.len() {
        assert(all[ends.1 - 1] == after[ends.1 - 1 - before.len() - digits.len()]);
    }
    assert(all.subrange(ends.0, ends.1) =~= digits);
    if 0 <= at < s.len() && !text::is_white(s[at]) {
        let cut = text::trimming_cuts_white_space(s);
        let trimmed = text::trim_of(s);
        assert(cut.0 <= at < cut.1);
        assert(trimmed[at - cut.0] == s[at]);
        if !text::is_digit(s[at]) && s[at] != '+' {
            text::other_texts_are_no_numbers(trimmed, at - cut.0);
        }
    }
}

/// A pool holds a handle if and only if some entry has it; the bytes of its
/// entries stand in their order.
pub proof fn entries_are_found_by_handle(entries: Seq<Entry>, id: Seq<u8>, i: int)
    requires
        0 <= i < entries.len(),
    ensures
        holds(entries, entries[i].0),
        (forall|j: int| 0 <= j < entries.len() ==> (#[trigger] entries[j]).0 != id) ==> !holds(
            entries,
            id,
        ),
        raws_of(entries).len() == entries.len(),
        raws_of(entries)[i] == entries[i].1,
{
}

/// What was taken out of the pool keeps its handles and its bytes, in order.
pub proof fn taken_entries_keep_their_handles(taken: Seq<(CosmosTxId, Bytes)>, i: int)
    ensures
        entries_of(taken).len() == taken.len(),
        0 <= i < taken.len() ==> entries_of(taken)[i].0 == taken[i].0@ && entries_of(taken)[i].1
            == raw::raw_bytes(taken[i].1),
{
}

/// A pool is full if and only if it has a limit and holds that many
/// transactions.
pub proof fn full_pools_are_at_their_limit(pool: IndexedCosmosMempool)
    ensures
        pool.limit() == 0 ==> !pool.full(),
        pool.limit() > 0 ==> (pool.full() <==> pool@.len() >= pool.limit()),
        pool.full() ==> forall|raw: Seq<u8>| !#[trigger] admits(pool, raw),
{
}

} // verus!
