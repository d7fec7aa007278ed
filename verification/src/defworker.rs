use crate::message::{Message, MessageView, PropaChange, PropaChangeView};
use crate::name_map::{NameMap, distinct_keys, entries_map, index_of, lookup, put, lemma_index_of, lemma_index_of_distinct, lemma_lookup_put};
use crate::transaction::Val;
use crate::txn_set::{copy_set, extend_set, remove_keys};
use crate::worker::Worker;
use std::collections::{HashMap, HashSet};
use vstd::prelude::*;
use vstd::std_specs::iter::IteratorSpec;

verus! {

broadcast use vstd::std_specs::hash::group_hash_axioms;

/// Entries of a replica: the names a definition depends on, each with its last known value.
pub type ReplicaEntries = Seq<(Seq<char>, Option<i32>)>;

/// The sum of all values of a replica, or `None` where some dependency has no value yet.
pub open spec fn replica_total(s: ReplicaEntries) -> Option<int>
    decreases s.len(),
{
    if s.len() == 0 {
        Some(0)
    } else {
        match (replica_total(s.drop_last()), s.last().1) {
            (Some(t), Some(v)) => Some(t + v),
            _ => None,
        }
    }
}

/// `s` without its `j`-th entry.
pub open spec fn without_entry(s: ReplicaEntries, j: int) -> ReplicaEntries {
    s.subrange(0, j) + s.subrange(j + 1, s.len() as int)
}

/// A total with one more value added.
pub open spec fn add_value(t: Option<int>, v: Option<i32>) -> Option<int> {
    match (t, v) {
        (Some(t), Some(v)) => Some(t + v),
        _ => None,
    }
}

/// The total of a replica is the total without one entry, plus that entry's value.
pub proof fn lemma_total_without_entry(s: ReplicaEntries, j: int)
    requires
        0 <= j < s.len(),
    ensures
        replica_total(s) == add_value(replica_total(without_entry(s, j)), s[j].1),
    decreases s.len(),
{
    if j == s.len() - 1 {
        assert(without_entry(s, j) =~= s.drop_last());
    } else {
        lemma_total_without_entry(s.drop_last(), j);
        let w = without_entry(s, j);
        assert(w.drop_last() =~= without_entry(s.drop_last(), j));
        assert(w.last() == s.last());
        assert(s.drop_last()[j] == s[j]);
    }
}

/// The total of a replica depends only on which value each name has, not on the order of
/// the entries.
pub proof fn lemma_total_depends_on_map_only(s1: ReplicaEntries, s2: ReplicaEntries)
    requires
        distinct_keys(s1),
        distinct_keys(s2),
        entries_map(s1) == entries_map(s2),
    ensures
        replica_total(s1) == replica_total(s2),
    decreases s1.len(),
{
    if s1.len() == 0 {
        if s2.len() > 0 {
            lemma_index_of_distinct(s2, 0);
            assert(entries_map(s2).dom().contains(s2[0].0));
            lemma_index_of(s1, s2[0].0);
        }
    } else {
        let k = s1.last().0;
        let n1 = s1.len() - 1;
        lemma_index_of_distinct(s1, n1);
        assert(entries_map(s1).dom().contains(k));
        let j = index_of(s2, k);
        lemma_index_of(s2, k);
        assert(entries_map(s1)[k] == entries_map(s2)[k]);
        let t1 = s1.drop_last();
        let t2 = without_entry(s2, j);
        assert(distinct_keys(t1)) by {
            assert forall|a: int, b: int| 0 <= a < t1.len() && 0 <= b < t1.len() && #[trigger] t1[a].0 == #[trigger] t1[b].0 implies a == b by {
                assert(s1[a] == t1[a] && s1[b] == t1[b]);
            }
        }
        assert forall|a: int| 0 <= a < t2.len() implies #[trigger] t2[a] == (if a < j { s2[a] } else { s2[a + 1] }) by {}
        assert(distinct_keys(t2)) by {
            assert forall|a: int, b: int| 0 <= a < t2.len() && 0 <= b < t2.len() && #[trigger] t2[a].0 == #[trigger] t2[b].0 implies a == b by {
                let a2 = if a < j { a } else { a + 1 };
                let b2 = if b < j { b } else { b + 1 };
                assert(s2[a2].0 == s2[b2].0);
            }
        }
        assert(entries_map(t1) =~= entries_map(t2)) by {
            assert forall|x: Seq<char>| #[trigger] entries_map(t1).dom().contains(x) <==> entries_map(t2).dom().contains(x) by {
                lemma_index_of(t1, x);
                lemma_index_of(t2, x);
                lemma_index_of(s1, x);
                lemma_index_of(s2, x);
                if index_of(t1, x) >= 0 {
                    let a = index_of(t1, x);
                    assert(s1[a] == t1[a]);
                    assert(x != k) by {
                        if x == k {
                            assert(s1[a].0 == s1[n1].0);
                        }
                    }
                    lemma_index_of_distinct(s1, a);
                    assert(entries_map(s1).dom().contains(x));
                    let c = index_of(s2, x);
                    assert(c != j);
                    let c2 = if c < j { c } else { c - 1 };
                    assert(t2[c2] == s2[c]);
                }
                if index_of(t2, x) >= 0 {
                    let a = index_of(t2, x);
                    let a2 = if a < j { a } else { a + 1 };
                    assert(t2[a] == s2[a2]);
                    assert(x != k) by {
                        if x == k {
                            assert(s2[a2].0 == s2[j].0);
                        }
                    }
                    lemma_index_of_distinct(s2, a2);
                    assert(entries_map(s2).dom().contains(x));
                    let c = index_of(s1, x);
                    assert(c != n1);
                    assert(t1[c] == s1[c]);
                }
            }
            assert forall|x: Seq<char>| #[trigger] entries_map(t1).dom().contains(x) implies entries_map(t1)[x] == entries_map(t2)[x] by {
                lemma_index_of(t1, x);
                lemma_index_of(t2, x);
                let a = index_of(t1, x);
                let b = index_of(t2, x);
                let b2 = if b < j { b } else { b + 1 };
                assert(t1[a] == s1[a]);
                assert(t2[b] == s2[b2]);
                lemma_index_of_distinct(s1, a);
                lemma_index_of_distinct(s2, b2);
                assert(entries_map(s1).dom().contains(x));
                assert(entries_map(s1)[x] == entries_map(s2)[x]);
            }
        }
        lemma_total_depends_on_map_only(t1, t2);
        lemma_total_without_entry(s2, j);
    }
}

/// Whether a replica total fits in an `i32`.
pub open spec fn total_fits(t: Option<int>) -> bool {
    t matches Some(v) ==> i32::MIN <= v <= i32::MAX
}

/// A replica has no total exactly when some dependency has no value.
pub proof fn lemma_replica_total_none(s: ReplicaEntries)
    ensures
        replica_total(s) is None <==> exists|i: int| 0 <= i < s.len() && s[i].1 is None,
    decreases s.len(),
{
    if s.len() > 0 {
        lemma_replica_total_none(s.drop_last());
        if replica_total(s.drop_last()) is None {
            let i = choose|i: int| 0 <= i < s.drop_last().len() && s.drop_last()[i].1 is None;
            assert(s[i].1 is None);
        }
        assert forall|i: int| 0 <= i < s.len() - 1 implies s.drop_last()[i] == s[i] by {}
    }
}

/// The transactions that the changes of a batch provide.
pub open spec fn batch_provides(b: Seq<PendingView>) -> Set<u128>
    decreases b.len(),
{
    if b.len() == 0 {
        Set::empty()
    } else {
        batch_provides(b.drop_last()).union(b.last().propa_change.provides)
    }
}

/// The transactions that the changes of a batch require.
pub open spec fn batch_requires(b: Seq<PendingView>) -> Set<u128>
    decreases b.len(),
{
    if b.len() == 0 {
        Set::empty()
    } else {
        batch_requires(b.drop_last()).union(b.last().propa_change.requires)
    }
}

/// The newest change of `name` among the changes of `b`, taken in order, as its
/// `(propa_id, new_val)`: a later change replaces an earlier one unless its id is smaller.
pub open spec fn newest(b: Seq<PendingView>, name: Seq<char>) -> Option<(i32, i32)>
    decreases b.len(),
{
    if b.len() == 0 {
        None
    } else {
        let prev = newest(b.drop_last(), name);
        let c = b.last();
        if c.propa_change.name == name && !(prev matches Some(p) && c.propa_id < p.0) {
            Some((c.propa_id, c.propa_change.new_val))
        } else {
            prev
        }
    }
}

/// A change is stale after `prefix` when a newer change of the same name came before it.
pub open spec fn is_stale(prefix: Seq<PendingView>, c: PendingView) -> bool {
    newest(prefix, c.propa_change.name) matches Some(p) && c.propa_id < p.0
}

/// The replica after the changes of `b` are applied in order, stale ones skipped.
pub open spec fn replica_after(rep: ReplicaEntries, b: Seq<PendingView>) -> ReplicaEntries
    decreases b.len(),
{
    if b.len() == 0 {
        rep
    } else {
        let prev = replica_after(rep, b.drop_last());
        let c = b.last();
        if is_stale(b.drop_last(), c) {
            prev
        } else {
            put(prev, c.propa_change.name, Some(c.propa_change.new_val))
        }
    }
}

/// `latest` gives each name the id of its newest change in `b`, and no id to the others.
pub open spec fn newest_ids(latest: Seq<(Seq<char>, i32)>, b: Seq<PendingView>) -> bool {
    forall|name: Seq<char>|
        #[trigger] lookup(latest, name) == (match newest(b, name) {
            Some(p) => Some(p.0),
            None => None,
        })
}

/// The change of a definition that a batch produces for the definitions downstream.
pub open spec fn batch_output(
    name: Seq<char>,
    new_val: i32,
    prev_provides: Set<u128>,
    b: Seq<PendingView>,
) -> PropaChangeView {
    PropaChangeView {
        name,
        new_val,
        provides: batch_provides(b),
        requires: prev_provides.union(batch_requires(b)),
    }
}

/// Within a batch, the change that wins for a name is one of its changes with the greatest
/// id: no change of the name has a greater id, the winner's value is that of a change with the
/// winning id, and a name the batch does not change has no winner.
pub proof fn lemma_newest_is_greatest(b: Seq<PendingView>, name: Seq<char>)
    ensures
        newest(b, name) is None <==> forall|i: int| 0 <= i < b.len() ==> b[i].propa_change.name != name,
        newest(b, name) matches Some(p) ==> {
            &&& forall|i: int| 0 <= i < b.len() && b[i].propa_change.name == name ==> b[i].propa_id <= p.0
            &&& exists|i: int|
                0 <= i < b.len() && b[i].propa_change.name == name && b[i].propa_id == p.0
                    && b[i].propa_change.new_val == p.1
        },
    decreases b.len(),
{
    if b.len() > 0 {
        let pre = b.drop_last();
        lemma_newest_is_greatest(pre, name);
        assert forall|i: int| 0 <= i < pre.len() implies pre[i] == b[i] by {}
        if let Some(p) = newest(b, name) {
            if newest(pre, name) == Some(p) {
                let w = choose|i: int|
                    0 <= i < pre.len() && pre[i].propa_change.name == name && pre[i].propa_id == p.0
                        && pre[i].propa_change.new_val == p.1;
                assert(b[w] == pre[w]);
            } else {
                assert(b[b.len() - 1] == b.last());
            }
        }
    }
}

/// After a batch, each name the batch changes holds the value of its winning change, and every
/// other name keeps its value.
pub proof fn lemma_replica_after_lookup(rep: ReplicaEntries, b: Seq<PendingView>, name: Seq<char>)
    ensures
        lookup(replica_after(rep, b), name) == (match newest(b, name) {
            Some(p) => Some(Some(p.1)),
            None => lookup(rep, name),
        }),
    decreases b.len(),
{
    if b.len() > 0 {
        let pre = b.drop_last();
        let c = b.last();
        lemma_replica_after_lookup(rep, pre, name);
        if !is_stale(pre, c) {
            lemma_lookup_put(replica_after(rep, pre), c.propa_change.name, Some(c.propa_change.new_val), name);
        }
    }
}

/// The definition worker's record of a change that waits to be applied.
pub struct _PropaChange {
    pub propa_id: i32,
    pub propa_change: PropaChange,
    pub deps: HashSet<u128>,
}

pub struct PendingView {
    pub propa_id: i32,
    pub propa_change: PropaChangeView,
    pub deps: Set<u128>,
}

impl View for _PropaChange {
    type V = PendingView;

    open spec fn view(&self) -> PendingView {
        PendingView {
            propa_id: self.propa_id,
            propa_change: self.propa_change@,
            deps: self.deps@,
        }
    }
}

/// The worker that holds one definition, here the sum of the names it depends on.
pub struct DefWorker<R, S> {
    pub worker: Worker<R, S>,
    pub value: Option<i32>,
    pub applied_txns: Vec<u128>,
    pub prev_batch_provides: HashSet<u128>,
    /// the changes still to be applied, by the key of a transaction they provide
    pub propa_changes_to_apply: HashMap<u128, _PropaChange>,
    /// the terms of the definition; their values are summed
    pub expr: Vec<Val>,
    /// each direct dependency with its last known value
    pub replica: NameMap<Option<i32>>,
    /// the names this definition depends on, directly or not
    pub transtitive_deps: HashSet<String>,
}

impl<R, S> DefWorker<R, S> {
    /// A definition worker named `name`, with no value and nothing applied yet.
    pub fn new(
        name: &str,
        inbox: R,
        sender_to_manager: S,
        expr: Vec<Val>,
        replica: NameMap<Option<i32>>,
        transtitive_deps: HashSet<String>,
    ) -> (w: DefWorker<R, S>)
        ensures
            w.worker.name@ == name@,
            w.worker.inbox == inbox,
            w.worker.sender_to_manager == sender_to_manager,
            w.worker.senders_to_succs@ == Seq::<S>::empty(),
            w.value is None,
            w.applied_txns@ == Seq::<u128>::empty(),
            w.prev_batch_provides@ == Set::<u128>::empty(),
            w.propa_changes_to_apply@ == Map::<u128, _PropaChange>::empty(),
            w.expr == expr,
            w.replica == replica,
            w.transtitive_deps == transtitive_deps,
    {
        DefWorker {
            worker: Worker::new(name, inbox, sender_to_manager),
            value: None,
            applied_txns: Vec::new(),
            prev_batch_provides: HashSet::new(),
            propa_changes_to_apply: HashMap::new(),
            expr,
            replica,
            transtitive_deps,
        }
    }

    /// Accepts a read of the definition or a propagated change; nothing follows from either yet.
    pub fn handle_message(msg: &Message<S>)
        requires
            msg is ReadDefRequest || msg is PropaMessage,
    {
    }

    /// The value of the definition: the sum of the values of its dependencies, or `None`
    /// where some dependency has no value yet.
    pub fn compute_val(replica: &NameMap<Option<i32>>) -> (v: Option<i32>)
        requires
            total_fits(replica_total(replica@)),
        ensures
            match replica_total(replica@) {
                Some(t) => v == Some(t as i32),
                None => v is None,
            },
    {
        let n = replica.len();
        let mut sum: i128 = 0;
        let mut i: usize = 0;
        while i < n
            invariant
                n == replica@.len(),
                i <= n,
                replica_total(replica@.take(i as int)) == Some(sum as int),
                -(i as int) * 0x8000_0000 <= sum <= (i as int) * 0x8000_0000,
            decreases n - i,
        {
            assert(replica@.take(i + 1).drop_last() =~= replica@.take(i as int));
            match replica.value_at(i) {
                Some(v) => {
                    sum = sum + *v as i128;
                },
                None => {
                    proof {
                        lemma_replica_total_none(replica@);
                    }
                    return None;
                },
            }
            i = i + 1;
        }
        assert(replica@.take(n as int) =~= replica@);
        Some(sum as i32)
    }

    /// Applies a batch of changes, in the order of `batch`:
    /// - every transaction that a change provides is taken off the changes still to apply;
    /// - each name of the batch gets the value of its newest change (a change whose id is
    ///   smaller than that of an earlier change of the same name is skipped);
    /// - the definition is recomputed from the replica;
    /// - the transactions that the batch provides are appended to the applied ones, in
    ///   some order, and become the previous batch's provided transactions;
    /// - the change of the definition is returned, for the subscribers: it provides what the
    ///   batch provides and requires what the previous batch provided and what the batch requires.
    pub fn apply_batch(
        batch: Vec<_PropaChange>,
        worker: &Worker<R, S>,
        value: &mut Option<i32>,
        applied_txns: &mut Vec<u128>,
        prev_batch_provides: &mut HashSet<u128>,
        propa_changes_to_apply: &mut HashMap<u128, _PropaChange>,
        replica: &mut NameMap<Option<i32>>,
    ) -> (out: Message<S>)
        requires
            replica_total(replica_after(old(replica)@, batch@.map_values(|c: _PropaChange| c@))) is Some,
            total_fits(replica_total(replica_after(old(replica)@, batch@.map_values(|c: _PropaChange| c@)))),
        ensures
            ({
                let b = batch@.map_values(|c: _PropaChange| c@);
                let total = replica_total(final(replica)@)->0;
                &&& final(replica)@ == replica_after(old(replica)@, b)
                &&& forall|name: Seq<char>|
                    #[trigger] lookup(final(replica)@, name) == (match newest(b, name) {
                        Some(p) => Some(Some(p.1)),
                        None => lookup(old(replica)@, name),
                    })
                &&& *final(value) == Some(total as i32)
                &&& final(propa_changes_to_apply)@ == old(propa_changes_to_apply)@.remove_keys(batch_provides(b))
                &&& final(prev_batch_provides)@ == batch_provides(b)
                &&& final(applied_txns)@.len() >= old(applied_txns)@.len()
                &&& final(applied_txns)@.take(old(applied_txns)@.len() as int) == old(applied_txns)@
                &&& final(applied_txns)@.skip(old(applied_txns)@.len() as int).no_duplicates()
                &&& final(applied_txns)@.skip(old(applied_txns)@.len() as int).to_set() == batch_provides(b)
                &&& out@ == MessageView::<S>::PropaMessage {
                    propa_change: batch_output(worker.name@, total as i32, old(prev_batch_provides)@, b),
                }
            }),
    {
        let ghost b = batch@.map_values(|c: _PropaChange| c@);
        let ghost rep0 = replica@;
        let ghost pending0 = propa_changes_to_apply@;
        let ghost applied0 = applied_txns@;
        let mut all_provides: HashSet<u128> = HashSet::new();
        let mut all_requires: HashSet<u128> = copy_set(prev_batch_provides);
        let mut latest_change: NameMap<i32> = NameMap::new();
        let n = batch.len();
        let mut i: usize = 0;
        proof {
            assert(b.take(0) =~= Seq::<PendingView>::empty());
            assert(all_requires@ =~= old(prev_batch_provides)@.union(batch_requires(b.take(0))));
            assert(propa_changes_to_apply@ =~= pending0.remove_keys(batch_provides(b.take(0))));
            assert forall|name: Seq<char>| #[trigger] lookup(latest_change@, name) == (match newest(b.take(0), name) {
                Some(p) => Some(p.0),
                None => None,
            }) by {
                lemma_index_of(latest_change@, name);
            }
        }
        while i < n
            invariant
                n == batch@.len(),
                b == batch@.map_values(|c: _PropaChange| c@),
                i <= n,
                all_provides@ == batch_provides(b.take(i as int)),
                all_requires@ == old(prev_batch_provides)@.union(batch_requires(b.take(i as int))),
                propa_changes_to_apply@ == pending0.remove_keys(batch_provides(b.take(i as int))),
                replica@ == replica_after(rep0, b.take(i as int)),
                newest_ids(latest_change@, b.take(i as int)),
            decreases n - i,
        {
            let change = &batch[i];
            let ghost pre = b.take(i as int);
            proof {
                assert(b.take(i + 1).drop_last() =~= pre);
                assert(b.take(i + 1).last() == change@);
            }
            extend_set(&mut all_provides, &change.propa_change.provides);
            extend_set(&mut all_requires, &change.propa_change.requires);
            remove_keys(propa_changes_to_apply, &change.propa_change.provides);
            let ghost latest0 = latest_change@;
            let ghost rep_before = replica@;
            let ghost cn = change.propa_change.name@;
            let stale = match latest_change.get(&change.propa_change.name) {
                Some(id) => change.propa_id < *id,
                None => false,
            };
            proof {
                assert(lookup(latest0, cn) == (match newest(pre, cn) {
                    Some(p) => Some(p.0),
                    None => None,
                }));
                assert(stale == is_stale(pre, change@));
            }
            if !stale {
                replica.insert(change.propa_change.name.clone(), Some(change.propa_change.new_val));
                latest_change.insert(change.propa_change.name.clone(), change.propa_id);
            }
            proof {
                assert(all_provides@ =~= batch_provides(b.take(i + 1)));
                assert(all_requires@ =~= old(prev_batch_provides)@.union(batch_requires(b.take(i + 1))));
                assert(propa_changes_to_apply@ =~= pending0.remove_keys(batch_provides(b.take(i + 1))));
                assert(replica@ == replica_after(rep0, b.take(i + 1)));
                assert forall|name: Seq<char>| #[trigger] lookup(latest_change@, name) == (match newest(b.take(i + 1), name) {
                    Some(p) => Some(p.0),
                    None => None,
                }) by {
                    assert(lookup(latest0, name) == (match newest(pre, name) {
                        Some(p) => Some(p.0),
                        None => None,
                    }));
                    if !stale {
                        lemma_lookup_put(latest0, cn, change.propa_id, name);
                    }
                }
            }
            i = i + 1;
        }
        proof {
            assert(b.take(n as int) =~= b);
            assert forall|name: Seq<char>|
                #[trigger] lookup(replica@, name) == (match newest(b, name) {
                    Some(p) => Some(Some(p.1)),
                    None => lookup(rep0, name),
                }) by {
                lemma_replica_after_lookup(rep0, b, name);
            }
        }
        *value = Self::compute_val(replica);
        let ghost applied1 = applied_txns@;
        let provided = all_provides.iter();
        let ghost ks = provided.remaining().unref();
        for x in it: provided
            invariant
                it.seq().unref() == ks,
                ks.to_set() == all_provides@,
                ks.no_duplicates(),
                applied_txns@ == applied1 + ks.take(it.index()),
        {
            proof {
                assert(ks.take(it.index() + 1) == ks.take(it.index()).push(*x));
            }
            applied_txns.push(*x);
        }
        proof {
            assert(ks.take(ks.len() as int) == ks);
            assert(applied_txns@.take(applied0.len() as int) =~= applied0);
            assert(applied_txns@.skip(applied0.len() as int) =~= ks);
        }
        *prev_batch_provides = copy_set(&all_provides);
        let new_val = match *value {
            Some(v) => v,
            None => {
                proof {
                    assert(false);
                }
                0
            },
        };
        Message::PropaMessage {
            propa_change: PropaChange {
                name: worker.name.clone(),
                new_val,
                provides: copy_set(&all_provides),
                requires: all_requires,
            },
        }
    }
}

} // verus!
