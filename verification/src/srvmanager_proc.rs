use crate::defworker::{DefWorker, ReplicaEntries, _PropaChange};
use crate::message::{Lock, Message, MessageView};
use crate::worker::OutgoingView;
use crate::name_map::{NameMap, index_of, lookup, put, lemma_index_of, lemma_lookup_put};
use crate::transaction::{Txn, TxnView, Val, ValView, WriteView, clock_now};
use crate::txn_set::{copy_set, extend_set};
use crate::varworker::{VarWorker, var_output};
use std::collections::HashSet;
use vstd::prelude::*;

verus! {

broadcast use vstd::std_specs::hash::group_hash_axioms;

/// The names that the writes of a transaction read, in the order of the writes.
pub open spec fn var_reads(writes: Seq<WriteView>) -> Seq<Seq<char>>
    decreases writes.len(),
{
    if writes.len() == 0 {
        Seq::empty()
    } else {
        let prev = var_reads(writes.drop_last());
        match writes.last().expr {
            ValView::Var(n) => prev.push(n),
            _ => prev,
        }
    }
}

/// Whether some write of a transaction assigns a definition, which is not supported yet.
pub open spec fn writes_a_def(writes: Seq<WriteView>) -> bool {
    exists|i: int| 0 <= i < writes.len() && writes[i].expr is Def
}

/// A transaction can be started when it assigns no definition, every name it reads has
/// a worker, and the number of reads fits the counter.
pub open spec fn can_start_spec<S>(writes: Seq<WriteView>, inboxes: Seq<(Seq<char>, S)>) -> bool {
    &&& !writes_a_def(writes)
    &&& var_reads(writes).len() <= i32::MAX
    &&& forall|i: int| 0 <= i < var_reads(writes).len() ==> index_of(inboxes, #[trigger] var_reads(writes)[i]) >= 0
}

/// A literal is written as it is, whatever its sign, and a name read is written with the value
/// that was read for it, whatever that value is.
pub proof fn lemma_write_value_is_literal_or_value_read(expr: ValView, values: ReplicaEntries, v: i32)
    ensures
        expr matches ValView::Int(x) ==> write_value(expr, values) == x,
        (expr matches ValView::Var(n) && lookup(values, n) == Some(Some(v))) ==> write_value(expr, values) == v,
{
}

/// The writes are ready exactly when every written name has a worker, no write assigns a
/// definition, and every name read has some value, whatever that value is.
pub proof fn lemma_writes_ready_exactly<S>(
    writes: Seq<WriteView>,
    values: ReplicaEntries,
    inboxes: Seq<(Seq<char>, S)>,
)
    ensures
        writes_ready_spec(writes, values, inboxes) <==> forall|i: int|
            0 <= i < writes.len() ==> {
                &&& index_of(inboxes, #[trigger] writes[i].name) >= 0
                &&& !(writes[i].expr is Def)
                &&& (writes[i].expr is Var ==> {
                    &&& lookup(values, writes[i].expr->Var_0) is Some
                    &&& lookup(values, writes[i].expr->Var_0)->0 is Some
                })
            },
{
}

/// Whether the writes are ready does not depend on the values read, only on which names
/// have a value.
pub proof fn lemma_writes_ready_ignores_values<S>(
    writes: Seq<WriteView>,
    values1: ReplicaEntries,
    values2: ReplicaEntries,
    inboxes: Seq<(Seq<char>, S)>,
)
    requires
        forall|n: Seq<char>|
            (#[trigger] lookup(values1, n) matches Some(Some(_))) == (lookup(values2, n) matches Some(Some(_))),
    ensures
        writes_ready_spec(writes, values1, inboxes) == writes_ready_spec(writes, values2, inboxes),
{
    assert forall|i: int| 0 <= i < writes.len() && writes[i].expr is Var implies
        (lookup(values1, writes[i].expr->Var_0) matches Some(Some(_))) == (lookup(values2, writes[i].expr->Var_0) matches Some(Some(_))) by {
        let n = writes[i].expr->Var_0;
        assert((lookup(values1, n) matches Some(Some(_))) == (lookup(values2, n) matches Some(Some(_))));
    }
}

/// A transaction can be started exactly when it assigns no definition, reads at most
/// `i32::MAX` names, and every name it reads has a worker; which names it writes, and whether it
/// writes a name it also reads, do not matter.
pub proof fn lemma_can_start_exactly<S>(writes: Seq<WriteView>, inboxes: Seq<(Seq<char>, S)>)
    ensures
        can_start_spec(writes, inboxes) <==> {
            &&& forall|i: int| 0 <= i < writes.len() ==> !(#[trigger] writes[i].expr is Def)
            &&& var_reads(writes).len() <= i32::MAX
            &&& forall|j: int| 0 <= j < var_reads(writes).len() ==> index_of(inboxes, #[trigger] var_reads(writes)[j]) >= 0
        },
{
}

/// Two transactions that assign no definition and read the same names, in the same order,
/// can either both be started or neither, whatever names they write.
pub proof fn lemma_can_start_ignores_written_names<S>(
    writes1: Seq<WriteView>,
    writes2: Seq<WriteView>,
    inboxes: Seq<(Seq<char>, S)>,
)
    requires
        var_reads(writes1) == var_reads(writes2),
        !writes_a_def(writes1),
        !writes_a_def(writes2),
    ensures
        can_start_spec(writes1, inboxes) == can_start_spec(writes2, inboxes),
{
}

/// The values known when the reads are sent: every name read, with no value yet.
pub open spec fn unread(reads: Seq<Seq<char>>) -> ReplicaEntries
    decreases reads.len(),
{
    if reads.len() == 0 {
        Seq::empty()
    } else {
        put(unread(reads.drop_last()), reads.last(), None)
    }
}

/// The value that a write assigns, given the values read.
pub open spec fn write_value(expr: ValView, values: ReplicaEntries) -> i32 {
    match expr {
        ValView::Int(x) => x,
        ValView::Var(n) => lookup(values, n)->0->0,
        ValView::Def(_) => 0,
    }
}

/// The writes can be sent when each assigned name has a worker and each name read has a value.
pub open spec fn writes_ready_spec<S>(
    writes: Seq<WriteView>,
    values: ReplicaEntries,
    inboxes: Seq<(Seq<char>, S)>,
) -> bool {
    forall|i: int|
        0 <= i < writes.len() ==> {
            &&& index_of(inboxes, #[trigger] writes[i].name) >= 0
            &&& !(writes[i].expr is Def)
            &&& (writes[i].expr matches ValView::Var(n) ==> lookup(values, n) matches Some(Some(_)))
        }
}

/// The reads of a prefix of the writes are a prefix of the reads.
pub proof fn lemma_var_reads_prefix(writes: Seq<WriteView>, k: int)
    requires
        0 <= k <= writes.len(),
    ensures
        var_reads(writes.take(k)).len() <= var_reads(writes).len(),
        var_reads(writes).take(var_reads(writes.take(k)).len() as int) == var_reads(writes.take(k)),
    decreases writes.len() - k,
{
    if k < writes.len() {
        lemma_var_reads_prefix(writes, k + 1);
        assert(writes.take(k + 1).drop_last() =~= writes.take(k));
        let r1 = var_reads(writes.take(k + 1));
        let r0 = var_reads(writes.take(k));
        assert(r1.take(r0.len() as int) =~= r0);
        assert(var_reads(writes).take(r1.len() as int).take(r0.len() as int) =~= var_reads(writes).take(r0.len() as int));
    } else {
        assert(writes.take(k) =~= writes);
        assert(var_reads(writes).take(var_reads(writes).len() as int) =~= var_reads(writes));
    }
}

/// Counter, values and requirements after the answers `msgs`, recorded in order.
pub open spec fn record_all<S>(
    cnt: int,
    values: ReplicaEntries,
    reqs: Set<u128>,
    txn: TxnView,
    msgs: Seq<MessageView<S>>,
) -> (int, ReplicaEntries, Set<u128>)
    decreases msgs.len(),
{
    if msgs.len() == 0 {
        (cnt, values, reqs)
    } else {
        let prev = record_all(cnt, values, reqs, txn, msgs.drop_last());
        record_spec(prev.0, prev.1, prev.2, txn, msgs.last())
    }
}

/// The transactions that the answers `msgs` provide.
pub open spec fn provided_by<S>(msgs: Seq<MessageView<S>>) -> Set<u128>
    decreases msgs.len(),
{
    if msgs.len() == 0 {
        Set::empty()
    } else {
        provided_by(msgs.drop_last()).union(
            match msgs.last() {
                MessageView::ReadVarResult { result_provide, .. } => result_provide,
                _ => Set::empty(),
            },
        )
    }
}

/// Answers for this transaction count down once each, and once they are all in, the
/// transaction requires exactly what it required before and what the answers provide.
pub proof fn lemma_answers_fill_requirements<S>(
    cnt: int,
    values: ReplicaEntries,
    reqs: Set<u128>,
    txn: TxnView,
    msgs: Seq<MessageView<S>>,
)
    requires
        forall|i: int|
            0 <= i < msgs.len() ==> (#[trigger] msgs[i] matches MessageView::ReadVarResult { txn: t, .. } && t.id == txn.id),
    ensures
        record_all(cnt, values, reqs, txn, msgs).0 == cnt - msgs.len(),
        record_all(cnt, values, reqs, txn, msgs).2 == reqs.union(provided_by(msgs)),
    decreases msgs.len(),
{
    if msgs.len() > 0 {
        let pre = msgs.drop_last();
        assert forall|i: int| 0 <= i < pre.len() implies (#[trigger] pre[i] matches MessageView::ReadVarResult { txn: t, .. } && t.id == txn.id) by {
            assert(pre[i] == msgs[i]);
        }
        lemma_answers_fill_requirements(cnt, values, reqs, txn, pre);
        assert(msgs[msgs.len() - 1] == msgs.last());
        assert(record_all(cnt, values, reqs, txn, msgs).2 =~= reqs.union(provided_by(msgs)));
    }
}

/// Answers for other transactions change nothing.
pub proof fn lemma_other_answers_ignored<S>(
    cnt: int,
    values: ReplicaEntries,
    reqs: Set<u128>,
    txn: TxnView,
    msg: MessageView<S>,
)
    requires
        msg matches MessageView::ReadVarResult { txn: t, .. } && t.id != txn.id,
    ensures
        record_spec(cnt, values, reqs, txn, msg) == (cnt, values, reqs),
{
}

/// The value that a transaction writes for `x := v` is the value that the worker of `v` held
/// when it answered the transaction's read, and the transaction then requires the last
/// transaction that worker had applied.
pub proof fn lemma_write_carries_value_read<S>(
    worker_name: Seq<char>,
    value: i32,
    applied: Seq<TxnView>,
    txn: TxnView,
    cnt: int,
    values: ReplicaEntries,
    reqs: Set<u128>,
)
    requires
        applied.len() > 0,
    ensures
        var_output(worker_name, Some(value), applied, MessageView::<S>::ReadVarRequest { txn })
            matches OutgoingView::ToManager(answer) && {
            let after = record_spec(cnt, values, reqs, txn, answer);
            &&& after.0 == cnt - 1
            &&& write_value(ValView::Var(worker_name), after.1) == value
            &&& after.2.contains(applied.last().key())
        },
{
    lemma_lookup_put(values, worker_name, Some(value), worker_name);
}

/// Whether `msg` answers a read of `txn`.
pub open spec fn is_answer_for<S>(msg: MessageView<S>, txn: TxnView) -> bool {
    msg matches MessageView::ReadVarResult { txn: t, .. } && t.id == txn.id
}

/// The answers to reads of `txn` among `msgs`, in order.
pub open spec fn answers_for<S>(msgs: Seq<MessageView<S>>, txn: TxnView) -> Seq<MessageView<S>>
    decreases msgs.len(),
{
    if msgs.len() == 0 {
        msgs
    } else {
        let prev = answers_for(msgs.drop_last(), txn);
        if is_answer_for(msgs.last(), txn) {
            prev.push(msgs.last())
        } else {
            prev
        }
    }
}

/// Whatever other messages come between them, only the answers for the transaction count:
/// recording a sequence of messages ends where recording its answers for the transaction
/// alone ends. So the count reaches zero at the same answer, and the values read and the
/// requirements, hence the writes sent, are the same.
pub proof fn lemma_only_answers_for_txn_count<S>(
    cnt: int,
    values: ReplicaEntries,
    reqs: Set<u128>,
    txn: TxnView,
    msgs: Seq<MessageView<S>>,
)
    ensures
        record_all(cnt, values, reqs, txn, msgs) == record_all(cnt, values, reqs, txn, answers_for(msgs, txn)),
    decreases msgs.len(),
{
    if msgs.len() > 0 {
        let pre = msgs.drop_last();
        lemma_only_answers_for_txn_count(cnt, values, reqs, txn, pre);
        let a = answers_for(pre, txn);
        if is_answer_for(msgs.last(), txn) {
            assert(a.push(msgs.last()).drop_last() =~= a);
        }
    }
}

/// Where a transaction stands while the service manager carries it out.
pub struct TxnProgress {
    /// reads still unanswered
    pub cnt: i32,
    /// each name read, with the value it was read at once its answer came
    pub names_to_value: NameMap<Option<i32>>,
    /// the transactions that the writes of this transaction must require
    pub requires_for_txn: HashSet<u128>,
}

/// Counter, values and requirements after the answer `msg` to a read of transaction `txn`:
/// an answer for this transaction counts down, records the value read and adds what it
/// provides to the requirements; an answer for another transaction changes nothing.
pub open spec fn record_spec<S>(
    cnt: int,
    values: ReplicaEntries,
    reqs: Set<u128>,
    txn: TxnView,
    msg: MessageView<S>,
) -> (int, ReplicaEntries, Set<u128>) {
    match msg {
        MessageView::ReadVarResult { txn: t, name, result, result_provide } => if t.id == txn.id {
            (cnt - 1, put(values, name, result), reqs.union(result_provide))
        } else {
            (cnt, values, reqs)
        },
        _ => (cnt, values, reqs),
    }
}

impl TxnProgress {
    /// Records the answer `msg` to a read of `txn` (see `record_spec`), and says whether
    /// every read has now been answered.
    pub fn record_result<S>(&mut self, txn: &Txn, msg: Message<S>) -> (all_in: bool)
        requires
            old(self).cnt > 0,
            msg is ReadVarResult,
        ensures
            (final(self).cnt as int, final(self).names_to_value@, final(self).requires_for_txn@)
                == record_spec(old(self).cnt as int, old(self).names_to_value@, old(self).requires_for_txn@, txn@, msg@),
            all_in == (final(self).cnt == 0),
    {
        match msg {
            Message::ReadVarResult { txn: txn_back, name, result, result_provide } => {
                if txn_back == *txn {
                    self.cnt = self.cnt - 1;
                    self.names_to_value.insert(name, result);
                    extend_set(&mut self.requires_for_txn, &result_provide);
                }
            },
            _ => {
                proof {
                    assert(false);
                }
            },
        }
        self.cnt == 0
    }

    /// Whether the writes of `txn` can be sent: see `writes_ready_spec`.
    pub fn writes_ready<S>(&self, txn: &Txn, worker_inboxes: &NameMap<S>) -> (ok: bool)
        ensures
            ok == writes_ready_spec(txn@.writes, self.names_to_value@, worker_inboxes@),
            ok == (forall|i: int|
                0 <= i < txn@.writes.len() ==> {
                    &&& index_of(worker_inboxes@, #[trigger] txn@.writes[i].name) >= 0
                    &&& !(txn@.writes[i].expr is Def)
                    &&& (txn@.writes[i].expr is Var ==> {
                        &&& lookup(self.names_to_value@, txn@.writes[i].expr->Var_0) is Some
                        &&& lookup(self.names_to_value@, txn@.writes[i].expr->Var_0)->0 is Some
                    })
                }),
    {
        let n = txn.writes.len();
        let mut i: usize = 0;
        while i < n
            invariant
                i <= n,
                n == txn@.writes.len(),
                writes_ready_spec(txn@.writes.take(i as int), self.names_to_value@, worker_inboxes@),
            decreases n - i,
        {
            let write = &txn.writes[i];
            proof {
                assert(txn@.writes[i as int] == write@);
                assert(index_of(worker_inboxes@, txn@.writes[i as int].name) == index_of(worker_inboxes@, write.name@));
            }
            if !worker_inboxes.contains_key(&write.name) {
                return false;
            }
            match &write.expr {
                Val::Int(_) => {},
                Val::Var(name) => {
                    match self.names_to_value.get(name) {
                        Some(Some(_)) => {},
                        _ => {
                            return false;
                        },
                    }
                },
                Val::Def(_) => {
                    return false;
                },
            }
            proof {
                assert forall|k: int| 0 <= k < i + 1 implies {
                    &&& index_of(worker_inboxes@, #[trigger] txn@.writes.take(i + 1)[k].name) >= 0
                    &&& !(txn@.writes.take(i + 1)[k].expr is Def)
                    &&& (txn@.writes.take(i + 1)[k].expr matches ValView::Var(n) ==> lookup(self.names_to_value@, n) matches Some(Some(_)))
                } by {
                    assert(txn@.writes.take(i + 1)[k] == txn@.writes[k]);
                    if k < i {
                        assert(txn@.writes.take(i as int)[k] == txn@.writes[k]);
                    }
                }
            }
            i = i + 1;
        }
        proof {
            assert(txn@.writes.take(n as int) =~= txn@.writes);
        }
        true
    }

    /// Once every read of `txn` is answered: for each write of `txn`, in order, the handle of
    /// the written variable's inbox with a write request that carries the assigned value (a
    /// literal, or the value read) and the transactions this one requires.
    pub fn write_requests<S: Clone>(&self, txn: &Txn, worker_inboxes: &NameMap<S>) -> (out: Vec<(S, Message<S>)>)
        requires
            self.cnt == 0,
            writes_ready_spec(txn@.writes, self.names_to_value@, worker_inboxes@),
        ensures
            out@.len() == txn@.writes.len(),
            forall|i: int|
                0 <= i < txn@.writes.len() ==> {
                    &&& cloned(lookup(worker_inboxes@, txn@.writes[i].name)->0, (#[trigger] out@[i]).0)
                    &&& out@[i].1@ == MessageView::<S>::WriteVarRequest {
                        txn: txn@,
                        write_val: write_value(txn@.writes[i].expr, self.names_to_value@),
                        requires: self.requires_for_txn@,
                    }
                },
            forall|i: int|
                0 <= i < txn@.writes.len() && (#[trigger] txn@.writes[i]).expr is Int ==> (out@[i].1@ matches MessageView::WriteVarRequest {
                    write_val,
                    ..
                } && write_val == txn@.writes[i].expr->Int_0),
            forall|i: int|
                0 <= i < txn@.writes.len() && (#[trigger] txn@.writes[i]).expr is Var ==> (out@[i].1@ matches MessageView::WriteVarRequest {
                    write_val,
                    ..
                } && Some(Some(write_val)) == lookup(self.names_to_value@, txn@.writes[i].expr->Var_0)),
    {
        let n = txn.writes.len();
        let mut out: Vec<(S, Message<S>)> = Vec::new();
        let mut i: usize = 0;
        while i < n
            invariant
                i <= n,
                n == txn@.writes.len(),
                self.cnt == 0,
                writes_ready_spec(txn@.writes, self.names_to_value@, worker_inboxes@),
                out@.len() == i,
                forall|j: int|
                    0 <= j < i ==> {
                        &&& cloned(lookup(worker_inboxes@, txn@.writes[j].name)->0, (#[trigger] out@[j]).0)
                        &&& out@[j].1@ == MessageView::<S>::WriteVarRequest {
                            txn: txn@,
                            write_val: write_value(txn@.writes[j].expr, self.names_to_value@),
                            requires: self.requires_for_txn@,
                        }
                    },
            decreases n - i,
        {
            let write = &txn.writes[i];
            proof {
                assert(txn@.writes[i as int] == write@);
                assert(index_of(worker_inboxes@, txn@.writes[i as int].name) >= 0);
            }
            let new_val: i32 = match &write.expr {
                Val::Int(x) => *x,
                Val::Var(name) => match self.names_to_value.get(name) {
                    Some(Some(v)) => *v,
                    _ => {
                        proof {
                            assert(false);
                        }
                        0
                    },
                },
                Val::Def(_) => {
                    proof {
                        assert(false);
                    }
                    0
                },
            };
            let target = match worker_inboxes.get(&write.name) {
                Some(t) => t.clone(),
                None => {
                    proof {
                        lemma_index_of(worker_inboxes@, write.name@);
                        assert(false);
                    }
                    return out;
                },
            };
            out.push(
                (target, Message::WriteVarRequest {
                    txn: txn.clone(),
                    write_val: new_val,
                    requires: copy_set(&self.requires_for_txn),
                }),
            );
            i = i + 1;
        }
        out
    }
}

/// The service manager: the handles of the workers' inboxes by name, its own inbox, and the
/// locks by name. Transactions are stamped from its clock origin.
pub struct ServiceManager<R, S> {
    pub worker_inboxes: NameMap<S>,
    pub sender_to_manager: S,
    pub receiver_from_workers: R,
    pub locks: NameMap<Option<Lock>>,
    pub clock_origin: tokio::time::Instant,
}

impl<R, S: Clone> ServiceManager<R, S> {
    /// A manager with no workers and no locks, whose inbox is reached by `sender_to_manager`
    /// and read from `receiver_from_workers`.
    pub fn new(sender_to_manager: S, receiver_from_workers: R) -> (m: Self)
        ensures
            m.worker_inboxes@ == Seq::<(Seq<char>, S)>::empty(),
            m.sender_to_manager == sender_to_manager,
            m.receiver_from_workers == receiver_from_workers,
            m.locks@ == Seq::<(Seq<char>, Option<Lock>)>::empty(),
    {
        ServiceManager {
            worker_inboxes: NameMap::new(),
            sender_to_manager,
            receiver_from_workers,
            locks: NameMap::new(),
            clock_origin: clock_now(),
        }
    }

    /// Makes the worker of state variable `name`, whose inbox is read from `inbox` and reached
    /// by `sndr`, and registers `sndr` under `name`.
    pub fn create_var_worker(
        name: &str,
        inbox: R,
        sndr: S,
        sender_to_manager: S,
        worker_inboxes: &mut NameMap<S>,
    ) -> (w: VarWorker<R, S>)
        ensures
            final(worker_inboxes)@ == put(old(worker_inboxes)@, name@, sndr),
            w.worker.name@ == name@,
            w.worker.inbox == inbox,
            w.worker.sender_to_manager == sender_to_manager,
            w.worker.senders_to_succs@ == Seq::<S>::empty(),
            w.value is None,
            w.applied_txns@ == Seq::<Txn>::empty(),
            w.next_requires@ == Set::<u128>::empty(),
    {
        let var_worker = VarWorker::new(name, inbox, sender_to_manager);
        worker_inboxes.insert(name.to_string(), sndr);
        var_worker
    }

    /// Makes the worker of definition `name`, whose inbox is read from `inbox` and reached by
    /// `sndr`, registers `sndr` under `name`, and returns, for each dependency in `replica`
    /// in order, the handle of the dependency's inbox with the request that subscribes the new
    /// worker to it.
    pub fn create_def_worker(
        name: &str,
        inbox: R,
        sndr: S,
        sender_to_manager: S,
        expr: Vec<Val>,
        replica: NameMap<Option<i32>>,
        transtitive_deps: HashSet<String>,
        worker_inboxes: &mut NameMap<S>,
    ) -> (res: (DefWorker<R, S>, Vec<(S, Message<S>)>))
        requires
            forall|i: int|
                0 <= i < replica@.len() ==> #[trigger] replica@[i].0 == name@
                    || index_of(old(worker_inboxes)@, replica@[i].0) >= 0,
        ensures
            final(worker_inboxes)@ == put(old(worker_inboxes)@, name@, lookup(final(worker_inboxes)@, name@)->0),
            lookup(final(worker_inboxes)@, name@) is Some,
            cloned(sndr, lookup(final(worker_inboxes)@, name@)->0),
            res.0.worker.name@ == name@,
            res.0.worker.inbox == inbox,
            res.0.worker.sender_to_manager == sender_to_manager,
            res.0.worker.senders_to_succs@ == Seq::<S>::empty(),
            res.0.value is None,
            res.0.applied_txns@ == Seq::<u128>::empty(),
            res.0.prev_batch_provides@ == Set::<u128>::empty(),
            res.0.propa_changes_to_apply@ == Map::<u128, _PropaChange>::empty(),
            res.0.expr == expr,
            res.0.replica@ == replica@,
            res.0.transtitive_deps == transtitive_deps,
            res.1@.len() == replica@.len(),
            forall|i: int|
                0 <= i < replica@.len() ==> {
                    &&& cloned(
                        lookup(final(worker_inboxes)@, replica@[i].0)->0,
                        (#[trigger] res.1@[i]).0,
                    )
                    &&& res.1@[i].1 is SubscribeRequest
                    &&& res.1@[i].1->subscriber_name@ == name@
                    &&& cloned(sndr, res.1@[i].1->sender)
                },
    {
        let registered = sndr.clone();
        let ghost old_inboxes = worker_inboxes@;
        worker_inboxes.insert(name.to_string(), registered);
        proof {
            lemma_lookup_put(old_inboxes, name@, registered, name@);
            assert forall|j: int| 0 <= j < replica@.len() implies index_of(worker_inboxes@, #[trigger] replica@[j].0) >= 0 by {
                lemma_lookup_put(old_inboxes, name@, registered, replica@[j].0);
                lemma_index_of(old_inboxes, replica@[j].0);
            }
        }
        let mut subscriptions: Vec<(S, Message<S>)> = Vec::new();
        let n = replica.len();
        for i in 0..n
            invariant
                n == replica@.len(),
                subscriptions@.len() == i,
                forall|j: int|
                    0 <= j < replica@.len() ==> index_of(worker_inboxes@, #[trigger] replica@[j].0) >= 0,
                forall|j: int|
                    0 <= j < i ==> {
                        &&& cloned(
                            lookup(worker_inboxes@, replica@[j].0)->0,
                            (#[trigger] subscriptions@[j]).0,
                        )
                        &&& subscriptions@[j].1 is SubscribeRequest
                        &&& subscriptions@[j].1->subscriber_name@ == name@
                        &&& cloned(sndr, subscriptions@[j].1->sender)
                    },
        {
            let dep_name = replica.key_at(i);
            let target = match worker_inboxes.get(dep_name) {
                Some(t) => t.clone(),
                None => {
                    proof {
                        assert(index_of(worker_inboxes@, replica@[i as int].0) >= 0);
                    }
                    return (
                        DefWorker::new(name, inbox, sender_to_manager, expr, replica, transtitive_deps),
                        subscriptions,
                    );
                },
            };
            subscriptions.push(
                (target, Message::SubscribeRequest { subscriber_name: name.to_string(), sender: sndr.clone() }),
            );
        }
        let def_worker = DefWorker::new(name, inbox, sender_to_manager, expr, replica, transtitive_deps);
        (def_worker, subscriptions)
    }


    /// Begins carrying out `txn`: for each write that reads a state variable, in order, the
    /// handle of that variable's inbox with a read request. The reads still unanswered are
    /// counted, each name read waits for its value, and nothing is required yet.
    /// When nothing is read, the writes can be sent at once (`TxnProgress::write_requests`).
    pub fn handle_transaction(txn: &Txn, worker_inboxes: &NameMap<S>) -> (res: (TxnProgress, Vec<(S, Message<S>)>))
        requires
            can_start_spec(txn@.writes, worker_inboxes@),
        ensures
            res.0.cnt == var_reads(txn@.writes).len(),
            res.0.names_to_value@ == unread(var_reads(txn@.writes)),
            res.0.requires_for_txn@ == Set::<u128>::empty(),
            res.1@.len() == var_reads(txn@.writes).len(),
            forall|i: int|
                0 <= i < var_reads(txn@.writes).len() ==> {
                    &&& cloned(lookup(worker_inboxes@, var_reads(txn@.writes)[i])->0, (#[trigger] res.1@[i]).0)
                    &&& res.1@[i].1@ == MessageView::<S>::ReadVarRequest { txn: txn@ }
                },
    {
        let ghost writes = txn@.writes;
        let n = txn.writes.len();
        let mut cnt: i32 = 0;
        let mut names_to_value: NameMap<Option<i32>> = NameMap::new();
        let mut reads: Vec<(S, Message<S>)> = Vec::new();
        let mut i: usize = 0;
        proof {
            assert(writes.take(0) =~= Seq::<WriteView>::empty());
            lemma_var_reads_prefix(writes, 0);
        }
        while i < n
            invariant
                i <= n,
                n == writes.len(),
                writes == txn@.writes,
                can_start_spec(writes, worker_inboxes@),
                cnt == var_reads(writes.take(i as int)).len(),
                reads@.len() == cnt,
                var_reads(writes).take(cnt as int) == var_reads(writes.take(i as int)),
                names_to_value@ == unread(var_reads(writes.take(i as int))),
                forall|j: int|
                    0 <= j < cnt ==> {
                        &&& cloned(lookup(worker_inboxes@, var_reads(writes)[j])->0, (#[trigger] reads@[j]).0)
                        &&& reads@[j].1@ == MessageView::<S>::ReadVarRequest { txn: txn@ }
                    },
            decreases n - i,
        {
            let ghost pre = writes.take(i as int);
            proof {
                assert(writes.take(i + 1).drop_last() =~= pre);
                assert(writes.take(i + 1).last() == txn.writes@[i as int]@);
                lemma_var_reads_prefix(writes, i + 1);
            }
            match &txn.writes[i].expr {
                Val::Var(name) => {
                    proof {
                        assert(var_reads(writes.take(i + 1)) == var_reads(pre).push(name@));
                        assert(var_reads(pre).push(name@).drop_last() =~= var_reads(pre));
                        assert(var_reads(writes)[cnt as int] == name@) by {
                            assert(var_reads(writes).take(cnt + 1)[cnt as int] == name@);
                        }
                        assert(index_of(worker_inboxes@, var_reads(writes)[cnt as int]) >= 0);
                    }
                    cnt = cnt + 1;
                    names_to_value.insert(name.clone(), None);
                    let target = match worker_inboxes.get(name) {
                        Some(t) => t.clone(),
                        None => {
                            proof {
                                lemma_index_of(worker_inboxes@, name@);
                                assert(false);
                            }
                            return (TxnProgress { cnt, names_to_value, requires_for_txn: HashSet::new() }, reads);
                        },
                    };
                    reads.push((target, Message::ReadVarRequest { txn: txn.clone() }));
                },
                Val::Int(_) => {
                    proof {
                        assert(var_reads(writes.take(i + 1)) == var_reads(pre));
                    }
                },
                Val::Def(_) => {
                    proof {
                        assert(writes[i as int].expr is Def);
                        assert(false);
                    }
                },
            }
            i = i + 1;
        }
        proof {
            assert(writes.take(n as int) =~= writes);
        }
        (TxnProgress { cnt, names_to_value, requires_for_txn: HashSet::new() }, reads)
    }

    /// Whether `txn` can be started with the workers registered in `worker_inboxes`.
    pub fn can_start(txn: &Txn, worker_inboxes: &NameMap<S>) -> (ok: bool)
        ensures
            ok == can_start_spec(txn@.writes, worker_inboxes@),
            ok == ({
                &&& forall|i: int| 0 <= i < txn@.writes.len() ==> !(#[trigger] txn@.writes[i].expr is Def)
                &&& var_reads(txn@.writes).len() <= i32::MAX
                &&& forall|j: int|
                    0 <= j < var_reads(txn@.writes).len() ==> index_of(worker_inboxes@, #[trigger] var_reads(txn@.writes)[j]) >= 0
            }),
    {
        let n = txn.writes.len();
        let mut reads: usize = 0;
        let mut i: usize = 0;
        proof {
            assert(txn@.writes.take(0) =~= Seq::<WriteView>::empty());
        }
        while i < n
            invariant
                i <= n,
                n == txn@.writes.len(),
                reads == var_reads(txn@.writes.take(i as int)).len(),
                reads <= i,
                !writes_a_def(txn@.writes.take(i as int)),
                forall|j: int|
                    0 <= j < var_reads(txn@.writes.take(i as int)).len() ==> index_of(
                        worker_inboxes@,
                        #[trigger] var_reads(txn@.writes.take(i as int))[j],
                    ) >= 0,
            decreases n - i,
        {
            let ghost pre = txn@.writes.take(i as int);
            proof {
                assert(txn@.writes.take(i + 1).drop_last() =~= pre);
                assert(txn@.writes.take(i + 1).last() == txn.writes@[i as int]@);
            }
            match &txn.writes[i].expr {
                Val::Var(name) => {
                    proof {
                        assert(var_reads(txn@.writes.take(i + 1)) == var_reads(pre).push(name@));
                    }
                    if !worker_inboxes.contains_key(name) {
                        proof {
                            lemma_var_reads_prefix(txn@.writes, i as int + 1);
                            let all = var_reads(txn@.writes);
                            assert(all.take(reads + 1)[reads as int] == name@);
                        }
                        return false;
                    }
                    reads = reads + 1;
                    proof {
                        let r1 = var_reads(txn@.writes.take(i + 1));
                        let r0 = var_reads(pre);
                        assert(index_of(worker_inboxes@, name@) >= 0);
                        assert forall|j: int| 0 <= j < r1.len() implies index_of(worker_inboxes@, #[trigger] r1[j]) >= 0 by {
                            if j < r0.len() {
                                assert(r1[j] == r0[j]);
                            } else {
                                assert(r1[j] == name@);
                            }
                        }
                    }
                },
                Val::Def(_) => {
                    proof {
                        assert(txn@.writes[i as int].expr is Def);
                    }
                    return false;
                },
                Val::Int(_) => {
                    proof {
                        assert(var_reads(txn@.writes.take(i + 1)) == var_reads(pre));
                    }
                },
            }
            proof {
                assert(!writes_a_def(txn@.writes.take(i + 1))) by {
                    if writes_a_def(txn@.writes.take(i + 1)) {
                        let k = choose|k: int| 0 <= k < i + 1 && (#[trigger] txn@.writes.take(i + 1)[k]).expr is Def;
                        assert(k < i ==> pre[k] == txn@.writes.take(i + 1)[k]);
                    }
                }
            }
            i = i + 1;
        }
        proof {
            assert(txn@.writes.take(n as int) =~= txn@.writes);
        }
        if reads > 0x7fff_ffff {
            return false;
        }
        true
    }
}

} // verus!
