//! Maps keyed by thirty-two byte handles.
use std::collections::HashMap;

use vstd::prelude::*;

verus! {

broadcast use vstd::std_specs::hash::group_hash_axioms;

/// A handle: the digest of what it stands for.
pub type Id = [u8; 32];

/// The first eight bytes of a handle as a number.
pub open spec fn short_id(id: Seq<u8>) -> u64 {
    (id[0] as nat * 0x100_0000_0000_0000 + id[1] as nat * 0x1_0000_0000_0000 + id[2] as nat
        * 0x100_0000_0000 + id[3] as nat * 0x1_0000_0000 + id[4] as nat * 0x100_0000 + id[5] as nat
        * 0x1_0000 + id[6] as nat * 0x100 + id[7] as nat) as u64
}

/// Whether two handles are the same.
pub fn same_id(a: &Id, b: &Id) -> (r: bool)
    ensures
        r == (a@ == b@),
{
    let mut i: usize = 0;
    while i < 32
        invariant
            i <= 32,
            forall|j: int| 0 <= j < i ==> #[trigger] a@[j] == b@[j],
        decreases 32 - i,
    {
        if a[i] != b[i] {
            return false;
        }
        i = i + 1;
    }
    assert(a@ =~= b@);
    true
}

/// The first eight bytes of a handle as a number.
pub fn short_of(id: &Id) -> (n: u64)
    ensures
        n == short_id(id@),
{
    id[0] as u64 * 0x100_0000_0000_0000 + id[1] as u64 * 0x1_0000_0000_0000 + id[2] as u64
        * 0x100_0000_0000 + id[3] as u64 * 0x1_0000_0000 + id[4] as u64 * 0x100_0000 + id[5] as u64
        * 0x1_0000 + id[6] as u64 * 0x100 + id[7] as u64
}

/// A map from handles to values. Handles with the same first eight bytes share
/// a bucket.
pub struct IdMap<V> {
    buckets: HashMap<u64, Vec<(Id, V)>>,
}

/// The value of the first entry with this handle.
pub open spec fn find_in<V>(bucket: Seq<(Id, V)>, id: Seq<u8>) -> Option<V>
    decreases bucket.len(),
{
    if bucket.len() == 0 {
        None
    } else if bucket[0].0@ == id {
        Some(bucket[0].1)
    } else {
        find_in(bucket.skip(1), id)
    }
}

pub open spec fn bucket_distinct<V>(bucket: Seq<(Id, V)>) -> bool {
    forall|i: int, j: int|
        0 <= i < j < bucket.len() ==> (#[trigger] bucket[i]).0@ != (#[trigger] bucket[j]).0@
}

/// The value that buckets hold for a handle.
pub open spec fn find_at<V>(buckets: Map<u64, Vec<(Id, V)>>, id: Seq<u8>) -> Option<V> {
    if buckets.contains_key(short_id(id)) {
        find_in(buckets[short_id(id)]@, id)
    } else {
        None
    }
}

proof fn lemma_find_push<V>(bucket: Seq<(Id, V)>, e: (Id, V), x: Seq<u8>)
    ensures
        find_in(bucket.push(e), x) == match find_in(bucket, x) {
            Some(v) => Some(v),
            None => if e.0@ == x {
                Some(e.1)
            } else {
                None
            },
        },
    decreases bucket.len(),
{
    reveal_with_fuel(find_in, 2);
    let after = bucket.push(e);
    if bucket.len() == 0 {
        assert(after.skip(1) =~= Seq::empty());
    } else {
        assert(after.skip(1) =~= bucket.skip(1).push(e));
        lemma_find_push(bucket.skip(1), e, x);
    }
}

proof fn lemma_find_index<V>(bucket: Seq<(Id, V)>, i: int)
    requires
        bucket_distinct(bucket),
        0 <= i < bucket.len(),
    ensures
        find_in(bucket, bucket[i].0@) == Some(bucket[i].1),
    decreases bucket.len(),
{
    if i > 0 {
        assert(bucket[0].0@ != bucket[i].0@);
        lemma_tail_distinct(bucket);
        lemma_find_index(bucket.skip(1), i - 1);
        assert(bucket.skip(1)[i - 1] == bucket[i]);
    }
}

proof fn lemma_tail_distinct<V>(bucket: Seq<(Id, V)>)
    requires
        bucket_distinct(bucket),
        bucket.len() > 0,
    ensures
        bucket_distinct(bucket.skip(1)),
{
    let tail = bucket.skip(1);
    assert forall|a: int, b: int| 0 <= a < b < tail.len() implies (#[trigger] tail[a]).0@ != (
    #[trigger] tail[b]).0@ by {
        assert(bucket[a + 1].0@ != bucket[b + 1].0@);
    }
}

proof fn lemma_find_none<V>(bucket: Seq<(Id, V)>, x: Seq<u8>)
    requires
        forall|i: int| 0 <= i < bucket.len() ==> (#[trigger] bucket[i]).0@ != x,
    ensures
        find_in(bucket, x) is None,
    decreases bucket.len(),
{
    if bucket.len() > 0 {
        assert forall|i: int| 0 <= i < bucket.skip(1).len() implies (#[trigger] bucket.skip(
            1,
        )[i]).0@ != x by {
            assert(bucket.skip(1)[i] == bucket[i + 1]);
        }
        lemma_find_none(bucket.skip(1), x);
    }
}

proof fn lemma_find_remove<V>(bucket: Seq<(Id, V)>, at: int, x: Seq<u8>)
    requires
        bucket_distinct(bucket),
        0 <= at < bucket.len(),
    ensures
        find_in(bucket.remove(at), x) == if x == bucket[at].0@ {
            None
        } else {
            find_in(bucket, x)
        },
    decreases bucket.len(),
{
    let after = bucket.remove(at);
    lemma_tail_distinct(bucket);
    if at == 0 {
        assert(after =~= bucket.skip(1));
        if x == bucket[0].0@ {
            assert forall|i: int| 0 <= i < after.len() implies (#[trigger] after[i]).0@ != x by {
                assert(bucket[0].0@ != bucket[i + 1].0@);
            }
            lemma_find_none(after, x);
        }
    } else {
        assert(after.skip(1) =~= bucket.skip(1).remove(at - 1));
        assert(after[0] == bucket[0]);
        assert(bucket[0].0@ != bucket[at].0@);
        lemma_find_remove(bucket.skip(1), at - 1, x);
        assert(bucket.skip(1)[at - 1] == bucket[at]);
    }
}

impl<V> View for IdMap<V> {
    type V = Map<Seq<u8>, V>;

    closed spec fn view(&self) -> Map<Seq<u8>, V> {
        Map::new(
            |id: Seq<u8>| find_at(self.buckets@, id) is Some,
            |id: Seq<u8>| find_at(self.buckets@, id)->0,
        )
    }
}

impl<V> IdMap<V> {
    /// A handle occurs once in its bucket.
    pub closed spec fn wf(self) -> bool {
        forall|short: u64| #[trigger]
            self.buckets@.contains_key(short) ==> bucket_distinct(self.buckets@[short]@)
    }

    /// The empty map.
    pub fn new() -> (m: Self)
        ensures
            m.wf(),
            m@ == Map::<Seq<u8>, V>::empty(),
    {
        let m = IdMap { buckets: HashMap::new() };
        assert(m@ =~= Map::<Seq<u8>, V>::empty());
        m
    }

    fn position(bucket: &Vec<(Id, V)>, id: &Id) -> (r: Option<usize>)
        ensures
            match r {
                Some(i) => i < bucket@.len() && bucket@[i as int].0@ == id@,
                None => forall|i: int| 0 <= i < bucket@.len() ==> (#[trigger] bucket@[i]).0@ != id@,
            },
    {
        let mut i: usize = 0;
        while i < bucket.len()
            invariant
                i <= bucket@.len(),
                forall|j: int| 0 <= j < i ==> (#[trigger] bucket@[j]).0@ != id@,
            decreases bucket@.len() - i,
        {
            if same_id(&bucket[i].0, id) {
                return Some(i);
            }
            i = i + 1;
        }
        None
    }

    /// The value of a handle.
    pub fn get(&self, id: &Id) -> (r: Option<&V>)
        requires
            self.wf(),
        ensures
            match r {
                Some(v) => self@.contains_key(id@) && self@[id@] == *v,
                None => !self@.contains_key(id@),
            },
    {
        let short: u64 = short_of(id);
        match self.buckets.get(&short) {
            Some(bucket) => match Self::position(bucket, id) {
                Some(i) => {
                    proof {
                        lemma_find_index(bucket@, i as int);
                    }
                    Some(&bucket[i].1)
                },
                None => {
                    proof {
                        lemma_find_none(bucket@, id@);
                    }
                    None
                },
            },
            None => None,
        }
    }

    /// Removes a handle.
    pub fn remove(&mut self, id: &Id)
        requires
            old(self).wf(),
        ensures
            final(self).wf(),
            final(self)@ == old(self)@.remove(id@),
    {
        let short: u64 = short_of(id);
        let ghost before = self.buckets@;
        match self.buckets.remove(&short) {
            Some(old_bucket) => {
                let mut bucket: Vec<(Id, V)> = old_bucket;
                let ghost start = bucket@;
                match Self::position(&bucket, id) {
                    Some(i) => {
                        let _ = bucket.remove(i);
                        proof {
                            assert forall|x: Seq<u8>|
                                #![trigger find_in(bucket@, x)]
                                find_in(bucket@, x) == if x == id@ {
                                    None
                                } else {
                                    find_in(start, x)
                                } by {
                                lemma_find_remove(start, i as int, x);
                            }
                            assert(bucket_distinct(bucket@)) by {
                                assert forall|a: int, b: int|
                                    0 <= a < b < bucket@.len() implies (#[trigger] bucket@[a]).0@
                                    != (#[trigger] bucket@[b]).0@ by {
                                    let sa = if a < i {
                                        a
                                    } else {
                                        a + 1
                                    };
                                    let sb = if b < i {
                                        b
                                    } else {
                                        b + 1
                                    };
                                    assert(start[sa].0@ != start[sb].0@);
                                }
                            }
                        }
                    },
                    None => {
                        proof {
                            lemma_find_none(start, id@);
                        }
                    },
                }
                self.buckets.insert(short, bucket);
                assert(self@ =~= old(self)@.remove(id@)) by {
                    assert forall|x: Seq<u8>|
                        find_at(self.buckets@, x) == if x == id@ {
                            None
                        } else {
                            find_at(before, x)
                        } by {
                        assert(find_in(bucket@, x) == find_in(bucket@, x));
                    }
                }
            },
            None => {
                assert(self.buckets@ =~= before);
                assert(self@ =~= old(self)@.remove(id@));
            },
        }
    }

    /// Sets the value of a handle.
    pub fn insert(&mut self, id: Id, value: V)
        requires
            old(self).wf(),
        ensures
            final(self).wf(),
            final(self)@ == old(self)@.insert(id@, value),
    {
        let short: u64 = short_of(&id);
        self.remove(&id);
        let ghost before = self.buckets@;
        let ghost middle = self@;
        assert(find_at(before, id@) is None) by {
            assert(!self@.contains_key(id@));
        }
        let mut bucket: Vec<(Id, V)> = match self.buckets.remove(&short) {
            Some(bucket) => bucket,
            None => Vec::new(),
        };
        let ghost start = bucket@;
        bucket.push((id, value));
        proof {
            assert(bucket_distinct(bucket@)) by {
                assert forall|a: int, b: int| 0 <= a < b < bucket@.len() implies (
                #[trigger] bucket@[a]).0@ != (#[trigger] bucket@[b]).0@ by {
                    if b < start.len() {
                        assert(start[a].0@ != start[b].0@);
                    } else {
                        lemma_find_index(start, a);
                    }
                }
            }
        }
        self.buckets.insert(short, bucket);
        assert(self@ =~= old(self)@.insert(id@, value)) by {
            assert forall|x: Seq<u8>|
                #![trigger find_at(self.buckets@, x)]
                find_at(self.buckets@, x) == if x == id@ {
                    Some(value)
                } else {
                    find_at(before, x)
                } by {
                lemma_find_push(start, (id, value), x);
            }
            assert forall|x: Seq<u8>| self@.contains_key(x) <==> x == id@ || middle.contains_key(
                x,
            ) by {
                assert(self@.contains_key(x) <==> find_at(self.buckets@, x) is Some);
                assert(middle.contains_key(x) <==> find_at(before, x) is Some);
            }
            assert forall|x: Seq<u8>| self@.contains_key(x) implies self@[x] == if x == id@ {
                value
            } else {
                middle[x]
            } by {
                assert(self@[x] == find_at(self.buckets@, x)->0);
                if x != id@ {
                    assert(middle.contains_key(x));
                    assert(middle[x] == find_at(before, x)->0);
                }
            }
            assert(self@ =~= middle.insert(id@, value));
            assert(middle.insert(id@, value) =~= old(self)@.insert(id@, value));
        }
    }
}

} // verus!
