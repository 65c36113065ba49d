//! Checked transactions on their way into the pool and out to other nodes.
use std::collections::{HashMap, VecDeque};

use bytes::Bytes;
use vstd::prelude::*;

use crate::cosmos_types;
use crate::id_map;
use crate::txpool::mempool;
use crate::txpool::mempool::{CosmosTxId, Entry, IndexedCosmosMempool};
use crate::txpool::raw;

verus! {

broadcast use vstd::std_specs::hash::group_hash_axioms;

/// Most bytes that one batch of forwarded transactions has, unless a single
/// transaction has more.
pub const COSMOS_FORWARD_EGRESS_MAX_BYTES: usize = 1_048_576;

/// The number of bytes of some transactions.
pub open spec fn bytes_in(txs: Seq<Seq<u8>>) -> nat
    decreases txs.len(),
{
    if txs.len() == 0 {
        0
    } else {
        bytes_in(txs.drop_last()) + txs.last().len()
    }
}

/// Whether a batch takes exactly the first `k` transactions of a queue: one at
/// least where there is one, and more only as far as the byte limit allows.
pub open spec fn is_batch_len(queue: Seq<Seq<u8>>, k: int) -> bool {
    if queue.len() == 0 {
        k == 0
    } else {
        &&& 1 <= k <= queue.len()
        &&& k == 1 || bytes_in(queue.take(k)) <= COSMOS_FORWARD_EGRESS_MAX_BYTES
        &&& k == queue.len() || bytes_in(queue.take(k + 1)) > COSMOS_FORWARD_EGRESS_MAX_BYTES
    }
}

proof fn lemma_bytes_monotone(queue: Seq<Seq<u8>>, j: int, k: int)
    requires
        0 <= j <= k <= queue.len(),
    ensures
        bytes_in(queue.take(j)) <= bytes_in(queue.take(k)),
    decreases k - j,
{
    if j < k {
        lemma_bytes_monotone(queue, j, k - 1);
        assert(queue.take(k).drop_last() =~= queue.take(k - 1));
    }
}

/// A batch takes a prefix of one length only.
pub proof fn batch_len_unique(queue: Seq<Seq<u8>>, j: int, k: int)
    requires
        is_batch_len(queue, j),
        is_batch_len(queue, k),
    ensures
        j == k,
{
    if j < k {
        lemma_bytes_monotone(queue, j + 1, k);
    } else if k < j {
        lemma_bytes_monotone(queue, k + 1, j);
    }
}

/// Local transactions that wait to be sent to other nodes.
pub struct ForwardEgress {
    queue: VecDeque<Bytes>,
}

impl View for ForwardEgress {
    type V = Seq<Seq<u8>>;

    closed spec fn view(&self) -> Seq<Seq<u8>> {
        raw::raws(self.queue@)
    }
}

impl ForwardEgress {
    /// An empty queue.
    pub fn new() -> (egress: Self)
        ensures
            egress@ == Seq::<Seq<u8>>::empty(),
    {
        let egress = ForwardEgress { queue: VecDeque::new() };
        assert(egress@ =~= Seq::<Seq<u8>>::empty());
        egress
    }

    /// Whether nothing waits.
    pub fn is_empty(&self) -> (r: bool)
        ensures
            r == (self@.len() == 0),
    {
        self.queue.len() == 0
    }

    /// Adds a transaction at the end.
    pub fn push(&mut self, tx: Bytes)
        ensures
            final(self)@ == old(self)@.push(raw::raw_bytes(tx)),
    {
        self.queue.push_back(tx);
        assert(self@ =~= old(self)@.push(raw::raw_bytes(tx)));
    }

    /// Takes one batch from the front, and tells whether more waits.
    pub fn drain_batch(&mut self) -> (r: (Vec<Bytes>, bool))
        ensures
            is_batch_len(old(self)@, r.0@.len() as int),
            raw::raws(r.0@) == old(self)@.take(r.0@.len() as int),
            final(self)@ == old(self)@.skip(r.0@.len() as int),
            r.1 == (final(self)@.len() > 0),
    {
        let ghost start = self@;
        let mut batch: Vec<Bytes> = Vec::new();
        let mut total: usize = 0;
        assert(start.skip(0) =~= start);
        assert(start.take(0) =~= Seq::<Seq<u8>>::empty());
        assert(raw::raws(batch@) =~= start.take(0));
        let mut waiting: usize = self.queue.len();
        while waiting > 0
            invariant
                waiting == self@.len(),
                start == old(self)@,
                batch@.len() <= start.len(),
                raw::raws(batch@) == start.take(batch@.len() as int),
                self@ == start.skip(batch@.len() as int),
                total == if bytes_in(start.take(batch@.len() as int)) <= usize::MAX {
                    bytes_in(start.take(batch@.len() as int))
                } else {
                    usize::MAX as nat
                },
                batch@.len() > 1 ==> bytes_in(start.take(batch@.len() as int))
                    <= COSMOS_FORWARD_EGRESS_MAX_BYTES,
            ensures
                batch@.len() == start.len() || (batch@.len() > 0 && bytes_in(
                    start.take(batch@.len() as int + 1),
                ) > COSMOS_FORWARD_EGRESS_MAX_BYTES),
            decreases waiting,
        {
            let ghost k = batch@.len() as int;
            assert(self@[0] == start[k]);
            let len: usize = raw::as_slice(&self.queue[0]).len();
            let next: usize = total.saturating_add(len);
            proof {
                assert(start.take(k + 1).drop_last() =~= start.take(k));
                assert(start.take(k + 1).last() == start[k]);
            }
            if next > COSMOS_FORWARD_EGRESS_MAX_BYTES && batch.len() > 0 {
                break;
            }
            let ghost left = self@;
            let tx: Bytes = self.queue.pop_front().unwrap();
            assert(self@ =~= left.skip(1));
            assert(left.skip(1) =~= start.skip(k + 1));
            total = next;
            waiting = self.queue.len();
            let ghost before = batch@;
            batch.push(tx);
            assert(raw::raws(batch@) =~= raw::raws(before).push(start[k]));
            assert(raw::raws(batch@) =~= start.take(k + 1));
        }
        (batch, waiting > 0)
    }
}

/// Handles of transactions, such as those of committed ones.
pub struct TxIdSet {
    buckets: HashMap<u64, Vec<CosmosTxId>>,
}

/// Whether a bucket holds a handle.
pub open spec fn in_bucket(bucket: Seq<CosmosTxId>, id: Seq<u8>) -> bool {
    exists|i: int| 0 <= i < bucket.len() && (#[trigger] bucket[i])@ == id
}

impl View for TxIdSet {
    type V = Set<Seq<u8>>;

    closed spec fn view(&self) -> Set<Seq<u8>> {
        Set::new(
            |id: Seq<u8>|
                self.buckets@.contains_key(id_map::short_id(id)) && in_bucket(
                    self.buckets@[id_map::short_id(id)]@,
                    id,
                ),
        )
    }
}

impl TxIdSet {
    /// The empty set.
    pub fn new() -> (s: Self)
        ensures
            s@ == Set::<Seq<u8>>::empty(),
    {
        let s = TxIdSet { buckets: HashMap::new() };
        assert(s@ =~= Set::<Seq<u8>>::empty());
        s
    }

    /// Whether a handle is in the set.
    pub fn contains(&self, id: &CosmosTxId) -> (r: bool)
        ensures
            r == self@.contains(id@),
    {
        let short: u64 = id_map::short_of(id);
        match self.buckets.get(&short) {
            Some(bucket) => {
                let mut i: usize = 0;
                while i < bucket.len()
                    invariant
                        i <= bucket@.len(),
                        short == id_map::short_id(id@),
                        self.buckets@.contains_key(short),
                        self.buckets@[short] == *bucket,
                        forall|j: int| 0 <= j < i ==> (#[trigger] bucket@[j])@ != id@,
                    decreases bucket@.len() - i,
                {
                    if id_map::same_id(&bucket[i], id) {
                        assert(in_bucket(bucket@, id@));
                        return true;
                    }
                    i = i + 1;
                }
                false
            },
            None => false,
        }
    }

    /// Adds a handle.
    pub fn insert(&mut self, id: CosmosTxId)
        ensures
            final(self)@ == old(self)@.insert(id@),
    {
        let short: u64 = id_map::short_of(&id);
        let ghost before = self.buckets@;
        let mut bucket: Vec<CosmosTxId> = match self.buckets.remove(&short) {
            Some(bucket) => bucket,
            None => Vec::new(),
        };
        let ghost old_bucket = bucket@;
        bucket.push(id);
        self.buckets.insert(short, bucket);
        proof {
            assert forall|other: Seq<u8>|
                self@.contains(other) == old(self)@.insert(id@).contains(other) by {
                if id_map::short_id(other) == short {
                    if in_bucket(old_bucket, other) {
                        let i = choose|i: int|
                            0 <= i < old_bucket.len() && (#[trigger] old_bucket[i])@ == other;
                        assert(bucket@[i]@ == other);
                    }
                    if in_bucket(bucket@, other) {
                        let i = choose|i: int|
                            0 <= i < bucket@.len() && (#[trigger] bucket@[i])@ == other;
                        if i < old_bucket.len() {
                            assert(old_bucket[i]@ == other);
                        }
                    }
                    if other == id@ {
                        assert(bucket@[old_bucket.len() as int]@ == other);
                    }
                }
            }
            assert(self@ =~= old(self)@.insert(id@));
        }
    }
}

/// Where a batch of checked transactions stands: the pool, the transactions to
/// forward, and the tally.
pub struct BatchState {
    pub entries: Seq<Entry>,
    pub forwarded: Seq<Seq<u8>>,
    pub accepted: nat,
    pub duplicates: nat,
    pub rejected_full: nat,
}

/// One checked transaction more. Committed ones and those that are pending
/// count as duplicates; a full pool turns the others away.
pub open spec fn batch_step(
    s: BatchState,
    limit: usize,
    committed: Set<Seq<u8>>,
    forward: bool,
    raw: Seq<u8>,
) -> BatchState {
    if committed.contains(cosmos_types::sha256(raw)) {
        BatchState { duplicates: s.duplicates + 1, ..s }
    } else if limit != 0 && s.entries.len() >= limit {
        BatchState { rejected_full: s.rejected_full + 1, ..s }
    } else if mempool::admitted(s.entries, limit, raw) {
        BatchState {
            entries: s.entries.push(mempool::entry_of(raw)),
            forwarded: if forward {
                s.forwarded.push(raw)
            } else {
                s.forwarded
            },
            accepted: s.accepted + 1,
            ..s
        }
    } else {
        BatchState { duplicates: s.duplicates + 1, ..s }
    }
}

/// All transactions of a batch, one after the other.
pub open spec fn batch_of(
    s: BatchState,
    limit: usize,
    committed: Set<Seq<u8>>,
    forward: bool,
    txs: Seq<Seq<u8>>,
) -> BatchState
    decreases txs.len(),
{
    if txs.len() == 0 {
        s
    } else {
        batch_step(
            batch_of(s, limit, committed, forward, txs.drop_last()),
            limit,
            committed,
            forward,
            txs.last(),
        )
    }
}

/// Every transaction of a batch is counted exactly once.
pub proof fn batch_is_counted(
    s: BatchState,
    limit: usize,
    committed: Set<Seq<u8>>,
    forward: bool,
    txs: Seq<Seq<u8>>,
)
    ensures
        ({
            let t = batch_of(s, limit, committed, forward, txs);
            &&& t.accepted + t.duplicates + t.rejected_full == s.accepted + s.duplicates
                + s.rejected_full + txs.len()
            &&& t.entries.len() == s.entries.len() + (t.accepted - s.accepted)
            &&& t.forwarded.len() == s.forwarded.len() + if forward {
                t.accepted - s.accepted
            } else {
                0
            }
            &&& t.accepted >= s.accepted
        }),
    decreases txs.len(),
{
    if txs.len() > 0 {
        batch_is_counted(s, limit, committed, forward, txs.drop_last());
    }
}

/// What became of a batch.
#[derive(Clone, Copy, Debug, PartialEq, Eq, Structural)]
pub struct BatchCounts {
    pub accepted: usize,
    pub duplicates: usize,
    pub rejected_full: usize,
}

/// Puts transactions that passed the application's check into the pool, and
/// queues those that were accepted for forwarding if `forward` is set.
pub fn apply_checked_batch(
    pool: &mut IndexedCosmosMempool,
    committed_seen: &TxIdSet,
    forward_egress: &mut ForwardEgress,
    forward: bool,
    txs: Vec<Bytes>,
) -> (counts: BatchCounts)
    requires
        old(pool).wf(),
    ensures
        final(pool).wf(),
        final(pool).limit() == old(pool).limit(),
        ({
            let s = BatchState {
                entries: old(pool)@,
                forwarded: old(forward_egress)@,
                accepted: 0,
                duplicates: 0,
                rejected_full: 0,
            };
            let t = batch_of(s, old(pool).limit(), committed_seen@, forward, raw::raws(txs@));
            &&& final(pool)@ == t.entries
            &&& final(forward_egress)@ == t.forwarded
            &&& counts.accepted == t.accepted
            &&& counts.duplicates == t.duplicates
            &&& counts.rejected_full == t.rejected_full
        }),
{
    let ghost s = BatchState {
        entries: pool@,
        forwarded: forward_egress@,
        accepted: 0,
        duplicates: 0,
        rejected_full: 0,
    };
    let ghost limit = pool.limit();
    let ghost all = raw::raws(txs@);
    let mut counts = BatchCounts { accepted: 0, duplicates: 0, rejected_full: 0 };
    let n: usize = txs.len();
    let mut i: usize = 0;
    assert(all.take(0) =~= Seq::<Seq<u8>>::empty());
    while i < n
        invariant
            n == txs@.len(),
            i <= n,
            all == raw::raws(txs@),
            pool.wf(),
            pool.limit() == limit,
            limit == old(pool).limit(),
            s.accepted == 0,
            s.duplicates == 0,
            s.rejected_full == 0,
            ({
                let t = batch_of(s, limit, committed_seen@, forward, all.take(i as int));
                &&& pool@ == t.entries
                &&& forward_egress@ == t.forwarded
                &&& counts.accepted == t.accepted
                &&& counts.duplicates == t.duplicates
                &&& counts.rejected_full == t.rejected_full
            }),
        decreases n - i,
    {
        proof {
            assert(all.take(i + 1).drop_last() =~= all.take(i as int));
            assert(all.take(i + 1).last() == raw::raw_bytes(txs@[i as int]));
            batch_is_counted(s, limit, committed_seen@, forward, all.take(i as int));
        }
        let tx: &Bytes = &txs[i];
        i = i + 1;
        if committed_seen.contains(&mempool::cosmos_raw_tx_id(raw::as_slice(tx))) {
            counts.duplicates = counts.duplicates + 1;
        } else if pool.is_full() {
            counts.rejected_full = counts.rejected_full + 1;
        } else if pool.try_push(raw::share(tx)) {
            counts.accepted = counts.accepted + 1;
            if forward {
                forward_egress.push(raw::share(tx));
            }
        } else {
            counts.duplicates = counts.duplicates + 1;
        }
    }
    assert(all.take(n as int) =~= all);
    counts
}

/// The transactions whose check came back with a code of zero, in order. A
/// check that failed on its way has no code.
pub open spec fn admitted_txs(txs: Seq<Seq<u8>>, codes: Seq<Option<u32>>) -> Seq<Seq<u8>>
    decreases txs.len(),
{
    if txs.len() == 0 {
        Seq::empty()
    } else {
        let before = admitted_txs(txs.drop_last(), codes);
        if codes[txs.len() - 1] == Some(0u32) {
            before.push(txs.last())
        } else {
            before
        }
    }
}

/// Keeps the transactions that the application admits.
pub fn keep_admitted(txs: Vec<Bytes>, codes: &Vec<Option<u32>>) -> (kept: Vec<Bytes>)
    requires
        txs@.len() == codes@.len(),
    ensures
        raw::raws(kept@) == admitted_txs(raw::raws(txs@), codes@),
{
    let ghost all = raw::raws(txs@);
    let mut kept: Vec<Bytes> = Vec::new();
    let mut i: usize = 0;
    assert(all.take(0) =~= Seq::<Seq<u8>>::empty());
    assert(raw::raws(kept@) =~= Seq::<Seq<u8>>::empty());
    while i < txs.len()
        invariant
            i <= txs@.len(),
            txs@.len() == codes@.len(),
            all == raw::raws(txs@),
            raw::raws(kept@) == admitted_txs(all.take(i as int), codes@),
        decreases txs@.len() - i,
    {
        let ghost before = kept@;
        assert(all.take(i + 1).drop_last() =~= all.take(i as int));
        let admitted: bool = match codes[i] {
            Some(code) => code == 0,
            None => false,
        };
        if admitted {
            kept.push(raw::share(&txs[i]));
            assert(raw::raws(kept@) =~= raw::raws(before).push(all[i as int]));
        }
        i = i + 1;
    }
    assert(all.take(i as int) =~= all);
    kept
}

/// Whether `places` are the places of the kept transactions: in order, with an
/// admission at each of them, and at no other place.
pub open spec fn kept_at(
    places: Seq<int>,
    txs: Seq<Seq<u8>>,
    codes: Seq<Option<u32>>,
    kept: Seq<Seq<u8>>,
) -> bool {
    &&& places.len() == kept.len()
    &&& forall|j: int|
        #![trigger places[j]]
        0 <= j < places.len() ==> 0 <= places[j] < txs.len() && codes[places[j]] == Some(0u32)
            && kept[j] == txs[places[j]]
    &&& forall|j: int, k: int|
        0 <= j < k < places.len() ==> #[trigger] places[j] < #[trigger] places[k]
    &&& forall|i: int|
        0 <= i < txs.len() && #[trigger] codes[i] == Some(0u32) ==> places.contains(i)
}

/// A transaction is kept if and only if its code is zero: every kept one stands
/// at a place with that code, every place with that code has its transaction
/// kept, in order, and as many are kept as there are such codes.
pub proof fn admitted_transactions_are_kept(
    txs: Seq<Seq<u8>>,
    codes: Seq<Option<u32>>,
) -> (places: Seq<int>)
    requires
        txs.len() == codes.len(),
    ensures
        kept_at(places, txs, codes, admitted_txs(txs, codes)),
        admitted_txs(txs, codes).len() == codes.filter(|c: Option<u32>| c == Some(0u32)).len(),
    decreases txs.len(),
{
    let admits = |c: Option<u32>| c == Some(0u32);
    reveal(Seq::filter);
    if txs.len() == 0 {
        Seq::empty()
    } else {
        let last = txs.len() - 1;
        lemma_codes_behind(txs.drop_last(), codes);
        let before = admitted_transactions_are_kept(txs.drop_last(), codes.drop_last());
        let kept = admitted_txs(txs, codes);
        assert(codes.drop_last() =~= codes.take(last));
        let places = if codes[last] == Some(0u32) {
            before.push(last)
        } else {
            before
        };
        assert forall|j: int|
            #![trigger places[j]]
            0 <= j < places.len() implies 0 <= places[j] < txs.len() && codes[places[j]] == Some(
            0u32,
        ) && kept[j] == txs[places[j]] by {
            if j < before.len() {
                assert(places[j] == before[j]);
                assert(codes.drop_last()[before[j]] == codes[before[j]]);
            }
        }
        assert forall|j: int, k: int| 0 <= j < k < places.len() implies #[trigger] places[j]
            < #[trigger] places[k] by {
            assert(places[j] == before[j]);
            if k < before.len() {
                assert(places[k] == before[k]);
            }
        }
        assert forall|i: int|
            0 <= i < txs.len() && #[trigger] codes[i] == Some(0u32) implies places.contains(
            i,
        ) by {
            if i < last {
                assert(codes.drop_last()[i] == codes[i]);
                assert(before.contains(i));
                let j = before.index_of(i);
                assert(places[j] == i);
            } else {
                assert(places[places.len() - 1] == i);
            }
        }
        places
    }
}

proof fn lemma_codes_behind(txs: Seq<Seq<u8>>, codes: Seq<Option<u32>>)
    requires
        txs.len() < codes.len(),
    ensures
        admitted_txs(txs, codes) == admitted_txs(txs, codes.drop_last()),
    decreases txs.len(),
{
    if txs.len() > 0 {
        lemma_codes_behind(txs.drop_last(), codes);
    }
}

/// The bytes of two batches add up, and those of one transaction are its
/// length.
pub proof fn batch_bytes_add_up(a: Seq<Seq<u8>>, b: Seq<Seq<u8>>, tx: Seq<u8>)
    ensures
        bytes_in(a + b) == bytes_in(a) + bytes_in(b),
        bytes_in(seq![tx]) == tx.len(),
        bytes_in(Seq::empty()) == 0,
    decreases b.len(),
{
    reveal_with_fuel(bytes_in, 2);
    assert(seq![tx].drop_last() =~= Seq::empty());
    if b.len() > 0 {
        batch_bytes_add_up(a, b.drop_last(), tx);
        assert((a + b).drop_last() =~= a + b.drop_last());
    } else {
        assert(a + b =~= a);
    }
}

/// A batch takes from the front: the first transaction whatever its length, and
/// each further one as long as the batch stays within a mebibyte.
pub proof fn batches_take_what_fits(queue: Seq<Seq<u8>>, k: int)
    requires
        0 <= k <= queue.len(),
    ensures
        is_batch_len(queue, k) <==> {
            &&& k == 0 ==> queue.len() == 0
            &&& k > 1 ==> bytes_in(queue.take(k)) <= 1_048_576
            &&& 0 < k < queue.len() ==> bytes_in(queue.take(k)) + queue[k].len() > 1_048_576
        },
{
    if k < queue.len() {
        assert(queue.take(k + 1).drop_last() =~= queue.take(k));
        assert(queue.take(k + 1).last() == queue[k]);
    }
}

/// A checked transaction comes into the pool, behind the others, if and only if
/// it is not empty, neither committed nor pending, and there is room. Only then
/// is it forwarded, where that is asked for. A committed one counts as a
/// duplicate even where there is no room.
pub proof fn new_transactions_come_in(
    s: BatchState,
    limit: usize,
    committed: Set<Seq<u8>>,
    forward: bool,
    raw: Seq<u8>,
)
    ensures
        ({
            let t = batch_step(s, limit, committed, forward, raw);
            let id = cosmos_types::sha256(raw);
            let known = committed.contains(id);
            let room = limit == 0 || s.entries.len() < limit;
            let pending = exists|i: int|
                0 <= i < s.entries.len() && (#[trigger] s.entries[i]).0 == id;
            let new = raw.len() > 0 && !known && !pending && room;
            &&& t.entries == if new {
                s.entries.push((id, raw))
            } else {
                s.entries
            }
            &&& t.forwarded == if new && forward {
                s.forwarded.push(raw)
            } else {
                s.forwarded
            }
            &&& t.accepted == s.accepted + if new {
                1int
            } else {
                0
            }
            &&& t.rejected_full == s.rejected_full + if !known && !room {
                1int
            } else {
                0
            }
            &&& t.duplicates == s.duplicates + if !new && (known || room) {
                1int
            } else {
                0
            }
        }),
{
}

/// A batch goes in as its transactions would one after the other, wherever it
/// is cut.
pub proof fn batches_go_in_one_by_one(
    s: BatchState,
    limit: usize,
    committed: Set<Seq<u8>>,
    forward: bool,
    a: Seq<Seq<u8>>,
    b: Seq<Seq<u8>>,
    raw: Seq<u8>,
)
    ensures
        batch_of(s, limit, committed, forward, a + b) == batch_of(
            batch_of(s, limit, committed, forward, a),
            limit,
            committed,
            forward,
            b,
        ),
        batch_of(s, limit, committed, forward, seq![raw]) == batch_step(
            s,
            limit,
            committed,
            forward,
            raw,
        ),
        batch_of(s, limit, committed, forward, Seq::empty()) == s,
    decreases b.len(),
{
    reveal_with_fuel(batch_of, 2);
    assert(seq![raw].drop_last() =~= Seq::empty());
    if b.len() > 0 {
        batches_go_in_one_by_one(s, limit, committed, forward, a, b.drop_last(), raw);
        assert((a + b).drop_last() =~= a + b.drop_last());
        assert((a + b).last() == b.last());
    } else {
        assert(a + b =~= a);
    }
}

} // verus!
