//! Listing the keys of hash maps and the members of hash sets.
use std::collections::{HashMap, HashSet};

use vstd::prelude::*;

verus! {

broadcast use vstd::std_specs::hash::group_hash_axioms;

/// Whether `list` holds each element of `set` once, in some order.
pub open spec fn lists_set<K>(list: Seq<K>, set: Set<K>) -> bool {
    &&& list.no_duplicates()
    &&& forall|k: K| #[trigger] list.contains(k) <==> set.contains(k)
    &&& list.len() == set.len()
}

/// The keys of a map, each once, in some order.
pub fn keys_of<V>(map: &HashMap<u32, V>) -> (r: Vec<u32>)
    ensures
        lists_set(r@, map@.dom()),
{
    let mut out: Vec<u32> = Vec::new();
    let ghost all = vstd::std_specs::iter::IteratorSpec::remaining(&vstd::std_specs::hash::spec_keys_iter(map)).unref();
    for k in it: map.keys()
        invariant
            it.seq().unref() == all,
            out@ == all.take(it.index()),
    {
        out.push(*k);
        proof {
            assert(all[it.index()] == *k);
            assert(all.take(it.index() + 1) =~= all.take(it.index()).push(*k));
        }
    }
    proof {
        let refs = vstd::std_specs::iter::IteratorSpec::remaining(&vstd::std_specs::hash::spec_keys_iter(map));
        assert(all.take(all.len() as int) =~= all);
        assert forall|i: int, j: int| 0 <= i < j < all.len() implies all[i] != all[j] by {
            assert(refs[i] != refs[j]);
        }
        assert forall|k: u32| #[trigger] all.contains(k) <==> map@.dom().contains(k) by {
            assert(all.to_set().contains(k) <==> all.contains(k));
        }
    }
    out
}

/// The keys of a map, each once, in some order.
pub fn wide_keys_of<V>(map: &HashMap<u64, V>) -> (r: Vec<u64>)
    ensures
        lists_set(r@, map@.dom()),
{
    let mut out: Vec<u64> = Vec::new();
    let ghost all = vstd::std_specs::iter::IteratorSpec::remaining(&vstd::std_specs::hash::spec_keys_iter(map)).unref();
    for k in it: map.keys()
        invariant
            it.seq().unref() == all,
            out@ == all.take(it.index()),
    {
        out.push(*k);
        proof {
            assert(all[it.index()] == *k);
            assert(all.take(it.index() + 1) =~= all.take(it.index()).push(*k));
        }
    }
    proof {
        let refs = vstd::std_specs::iter::IteratorSpec::remaining(&vstd::std_specs::hash::spec_keys_iter(map));
        assert(all.take(all.len() as int) =~= all);
        assert forall|i: int, j: int| 0 <= i < j < all.len() implies all[i] != all[j] by {
            assert(refs[i] != refs[j]);
        }
        assert forall|k: u64| #[trigger] all.contains(k) <==> map@.dom().contains(k) by {
            assert(all.to_set().contains(k) <==> all.contains(k));
        }
    }
    out
}

/// The members of a set, each once, in some order.
pub fn members_of(set: &HashSet<u64>) -> (r: Vec<u64>)
    ensures
        lists_set(r@, set@),
{
    let mut out: Vec<u64> = Vec::new();
    let ghost all = vstd::std_specs::iter::IteratorSpec::remaining(&vstd::std_specs::hash::spec_hash_keys_iter(set)).unref();
    for k in it: set.iter()
        invariant
            it.seq().unref() == all,
            out@ == all.take(it.index()),
    {
        out.push(*k);
        proof {
            assert(all[it.index()] == *k);
            assert(all.take(it.index() + 1) =~= all.take(it.index()).push(*k));
        }
    }
    proof {
        let refs = vstd::std_specs::iter::IteratorSpec::remaining(&vstd::std_specs::hash::spec_hash_keys_iter(set));
        assert(all.take(all.len() as int) =~= all);
        assert forall|i: int, j: int| 0 <= i < j < all.len() implies all[i] != all[j] by {
            assert(refs[i] != refs[j]);
        }
        assert forall|k: u64| #[trigger] all.contains(k) <==> set@.contains(k) by {
            assert(all.to_set().contains(k) <==> all.contains(k));
        }
        all.unique_seq_to_set();
        assert(all.to_set() =~= set@);
    }
    out
}

} // verus!
