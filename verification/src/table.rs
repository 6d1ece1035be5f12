//! Tables keyed by number, read in key order.

use std::collections::BTreeMap;
use vstd::prelude::*;
use vstd::std_specs::btree::*;
use vstd::std_specs::cmp::OrdSpec;
use vstd::std_specs::iter::IteratorSpec;

verus! {

broadcast use group_btree_axioms;

/// Whether `keys` are the keys of `map`, in increasing order.
pub open spec fn are_keys<V>(map: Map<u64, V>, keys: Seq<u64>) -> bool {
    &&& forall|i: int, j: int| 0 <= i < j < keys.len() ==> keys[i] < keys[j]
    &&& forall|i: int| 0 <= i < keys.len() ==> map.contains_key(#[trigger] keys[i])
    &&& forall|key: u64| #[trigger] map.contains_key(key) ==> keys.contains(key)
}

/// The keys of `map`, in increasing order.
pub fn keys_of<V>(map: &BTreeMap<u64, V>) -> (keys: Vec<u64>)
    ensures
        are_keys(map@, keys@),
        keys@.len() == map@.len(),
{
    let mut keys: Vec<u64> = Vec::new();
    for key in walk: map.keys()
        invariant
            walk.seq() == IteratorSpec::remaining(&spec_keys_iter(map)),
            keys@ == walk.seq().unref().take(walk.index() as int),
    {
        keys.push(*key);
        proof {
            assert(keys@ =~= walk.seq().unref().take(walk.index() + 1));
        }
    }
    proof {
        assert(keys@ =~= IteratorSpec::remaining(&spec_keys_iter(map)).unref());
        lemma_walk_order(map, keys@);
    }
    keys
}

/// A walk over the keys meets each of them once, in increasing order.
proof fn lemma_walk_order<V>(map: &BTreeMap<u64, V>, keys: Seq<u64>)
    requires
        keys == IteratorSpec::remaining(&spec_keys_iter(map)).unref(),
    ensures
        are_keys(map@, keys),
{
    let walk = IteratorSpec::remaining(&spec_keys_iter(map));
    assert(keys.to_set() == map@.dom());
    assert(increasing_seq(walk));
    assert forall|key: u64| #[trigger] map@.contains_key(key) implies keys.contains(key) by {
        assert(keys.to_set().contains(key));
    }
    assert forall|i: int| 0 <= i < keys.len() implies map@.contains_key(#[trigger] keys[i]) by {
        assert(keys.to_set().contains(keys[i]));
    }
    broadcast use vstd::laws_cmp::group_laws_cmp;
    assert(vstd::laws_cmp::obeys_cmp::<u64>());
    assert(vstd::laws_cmp::obeys_cmp::<&u64>());
    axiom_increasing_seq_meaning(walk);
    assert forall|i: int, j: int| 0 <= i < j < keys.len() implies keys[i] < keys[j] by {
        assert(OrdSpec::cmp_spec(&walk[i], &walk[j]) is Less);
        assert(*walk[i] < *walk[j]);
    }
}

} // verus!
