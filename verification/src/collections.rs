//! Listing the keys of ordered maps and the items of ordered sets.
use vstd::prelude::*;
use std::collections::BTreeMap;
use std::collections::BTreeSet;

verus! {

broadcast use vstd::std_specs::btree::group_btree_axioms;

proof fn lemma_unref_prefix(all: Seq<&u32>, out: Seq<u32>, n: int, dom: Set<u32>)
    requires
        0 <= n <= all.len(),
        out.len() == n,
        forall|i: int| 0 <= i < n ==> out[i] == *all[i],
        all.unref().to_set() == dom,
        all.no_duplicates(),
    ensures
        n == all.len() ==> out.to_set() == dom && out.no_duplicates(),
{
    if n == all.len() {
        assert(out =~= all.unref());
        assert forall|i: int, j: int| 0 <= i < out.len() && 0 <= j < out.len() && i != j implies out[i] != out[j] by {
            assert(all[i] != all[j]);
        }
    }
}

/// The keys of an ordered map, each once.
pub fn map_keys<V>(m: &BTreeMap<u32, V>) -> (r: Vec<u32>)
    ensures
        r@.to_set() == m@.dom(),
        r@.no_duplicates(),
{
    let mut out: Vec<u32> = Vec::new();
    proof {
        assert(out@.to_set() =~= Set::<u32>::empty());
    }
    for k in it: m.keys()
        invariant
            out@.len() == it.index(),
            forall|i: int| 0 <= i < it.index() ==> out@[i] == *it.seq()[i],
            it.seq().unref().to_set() == m@.dom(),
            it.seq().no_duplicates(),
            it.index() == it.seq().len() ==> out@.to_set() == m@.dom() && out@.no_duplicates(),
        ensures
            out@.to_set() == m@.dom(),
            out@.no_duplicates(),
    {
        proof {
            lemma_unref_prefix(it.seq(), out@, it.index() as int, m@.dom());
        }
        out.push(*k);
        proof {
            lemma_unref_prefix(it.seq(), out@, it.index() + 1, m@.dom());
        }
    }
    out
}

/// The items of an ordered set, each once.
pub fn set_items(s: &BTreeSet<u32>) -> (r: Vec<u32>)
    ensures
        r@.to_set() == s@,
        r@.no_duplicates(),
{
    let mut out: Vec<u32> = Vec::new();
    proof {
        assert(out@.to_set() =~= Set::<u32>::empty());
    }
    for k in it: s.iter()
        invariant
            out@.len() == it.index(),
            forall|i: int| 0 <= i < it.index() ==> out@[i] == *it.seq()[i],
            it.seq().unref().to_set() == s@,
            it.seq().no_duplicates(),
            it.index() == it.seq().len() ==> out@.to_set() == s@ && out@.no_duplicates(),
        ensures
            out@.to_set() == s@,
            out@.no_duplicates(),
    {
        proof {
            lemma_unref_prefix(it.seq(), out@, it.index() as int, s@);
        }
        out.push(*k);
        proof {
            lemma_unref_prefix(it.seq(), out@, it.index() + 1, s@);
        }
    }
    out
}

} // verus!
