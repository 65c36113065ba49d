//! Ordered access to maps keyed by heights.
use std::collections::BTreeMap;

use vstd::prelude::*;

verus! {

broadcast use vstd::std_specs::btree::group_btree_axioms;

/// Whether `keys` lists exactly the keys of a map.
pub open spec fn lists_keys<V>(keys: Seq<u64>, m: Map<u64, V>) -> bool {
    forall|k: u64| keys.contains(k) <==> #[trigger] m.contains_key(k)
}

/// The keys of a map.
pub fn keys_of<V>(m: &BTreeMap<u64, V>) -> (out: Vec<u64>)
    ensures
        lists_keys(out@, m@),
        out@.no_duplicates(),
{
    let mut out: Vec<u64> = Vec::new();
    for k in it: m.keys()
        invariant
            out@.len() == it.index(),
            forall|i: int| 0 <= i < out@.len() ==> out@[i] == *it.seq()[i],
    {
        out.push(*k);
    }
    proof {
        let ks = vstd::std_specs::iter::IteratorSpec::remaining(
            &vstd::std_specs::btree::spec_keys_iter(m),
        );
        assert(out@ =~= ks.unref());
        assert forall|k: u64| out@.contains(k) <==> #[trigger] m@.contains_key(k) by {
            assert(out@.to_set().contains(k) <==> m@.dom().contains(k));
        }
    }
    out
}

} // verus!
