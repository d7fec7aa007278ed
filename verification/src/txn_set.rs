use std::collections::{HashMap, HashSet};
use vstd::prelude::*;
use vstd::std_specs::iter::IteratorSpec;

verus! {

broadcast use vstd::std_specs::hash::group_hash_axioms;

/// Adds every element of `other` to `target`.
pub fn extend_set(target: &mut HashSet<u128>, other: &HashSet<u128>)
    ensures
        final(target)@ == old(target)@.union(other@),
{
    let ghost start = target@;
    let keys = other.iter();
    let ghost ks = keys.remaining().unref();
    assert(ks.to_set() == other@);
    for x in it: keys
        invariant
            it.seq().unref() == ks,
            ks.to_set() == other@,
            target@ == start.union(ks.take(it.index()).to_set()),
    {
        proof {
            assert(ks.take(it.index() + 1) == ks.take(it.index()).push(*x));
            ks.take(it.index()).lemma_push_to_set_commute(*x);
        }
        target.insert(*x);
    }
    proof {
        assert(ks.take(ks.len() as int) == ks);
    }
}

/// Removes from `m` the entries of every key in `keys`.
pub fn remove_keys<V>(m: &mut HashMap<u128, V>, keys: &HashSet<u128>)
    ensures
        final(m)@ == old(m)@.remove_keys(keys@),
{
    let ghost start = m@;
    let it_keys = keys.iter();
    let ghost ks = it_keys.remaining().unref();
    for x in it: it_keys
        invariant
            it.seq().unref() == ks,
            ks.to_set() == keys@,
            m@ == start.remove_keys(ks.take(it.index()).to_set()),
    {
        proof {
            assert(ks.take(it.index() + 1) == ks.take(it.index()).push(*x));
            ks.take(it.index()).lemma_push_to_set_commute(*x);
        }
        m.remove(x);
        proof {
            assert(m@ =~= start.remove_keys(ks.take(it.index() + 1).to_set()));
        }
    }
    proof {
        assert(ks.take(ks.len() as int) == ks);
    }
}

/// A fresh set that holds exactly the elements of `s`.
pub fn copy_set(s: &HashSet<u128>) -> (copy: HashSet<u128>)
    ensures
        copy@ == s@,
{
    let mut copy: HashSet<u128> = HashSet::new();
    extend_set(&mut copy, s);
    assert(copy@ =~= s@);
    copy
}

/// The set that holds `key` alone.
pub fn singleton_set(key: u128) -> (s: HashSet<u128>)
    ensures
        s@ == set![key],
{
    let mut s: HashSet<u128> = HashSet::new();
    s.insert(key);
    assert(s@ =~= set![key]);
    s
}

} // verus!
