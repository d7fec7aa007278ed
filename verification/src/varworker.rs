use crate::message::{Message, MessageView, PropaChange, PropaChangeView};
use crate::transaction::{Txn, TxnView};
use crate::txn_set::{copy_set, extend_set, singleton_set};
use crate::worker::{Outgoing, OutgoingView, Worker};
use std::collections::HashSet;
use vstd::prelude::*;

verus! {

broadcast use vstd::std_specs::hash::group_hash_axioms;

/// The worker that holds one state variable.
pub struct VarWorker<R, S> {
    pub worker: Worker<R, S>,
    pub value: Option<i32>,
    pub applied_txns: Vec<Txn>,
    pub next_requires: HashSet<u128>,
}

/// The messages that a variable worker handles; it refuses every other one.
pub open spec fn var_accepts<S>(msg: MessageView<S>, applied: Seq<TxnView>) -> bool {
    match msg {
        MessageView::ReadVarRequest { .. } => applied.len() > 0,
        MessageView::WriteVarRequest { .. } => true,
        MessageView::ManagerRetrieve => true,
        MessageView::SubscribeRequest { .. } => true,
        _ => false,
    }
}

/// The value of the variable after `msg`: a write sets it, nothing else changes it.
pub open spec fn var_next_value<S>(value: Option<i32>, msg: MessageView<S>) -> Option<i32> {
    match msg {
        MessageView::WriteVarRequest { write_val, .. } => Some(write_val),
        _ => value,
    }
}

/// The transactions applied after `msg`: a write appends its transaction.
pub open spec fn var_next_applied<S>(applied: Seq<TxnView>, msg: MessageView<S>) -> Seq<TxnView> {
    match msg {
        MessageView::WriteVarRequest { txn, .. } => applied.push(txn),
        _ => applied,
    }
}

/// The transactions that the next change of the variable must require, after `msg`:
/// a read adds the reading transaction, a write adds its own transaction and what it requires.
pub open spec fn var_next_requires<S>(reqs: Set<u128>, msg: MessageView<S>) -> Set<u128> {
    match msg {
        MessageView::ReadVarRequest { txn } => reqs.insert(txn.key()),
        MessageView::WriteVarRequest { txn, requires: r, .. } => reqs.union(r).insert(txn.key()),
        _ => reqs,
    }
}

/// What the worker named `name` sends in answer to `msg`, given the value and the applied
/// transactions before it.
pub open spec fn var_output<S>(
    name: Seq<char>,
    value: Option<i32>,
    applied: Seq<TxnView>,
    msg: MessageView<S>,
) -> OutgoingView<S> {
    match msg {
        MessageView::ReadVarRequest { txn } => OutgoingView::ToManager(
            MessageView::ReadVarResult {
                txn,
                name,
                result: value,
                result_provide: set![applied.last().key()],
            },
        ),
        MessageView::WriteVarRequest { txn, write_val, requires: r } => OutgoingView::ToSubscribers(
            MessageView::PropaMessage {
                propa_change: PropaChangeView {
                    name,
                    new_val: write_val,
                    provides: set![txn.key()],
                    requires: r,
                },
            },
        ),
        MessageView::ManagerRetrieve => OutgoingView::ToManager(
            MessageView::ManagerRetrieveResult { name, result: value },
        ),
        _ => OutgoingView::Nothing,
    }
}

/// A read that follows a write answers with the written value, and gives the write's
/// transaction as the one the value comes from.
pub proof fn lemma_read_after_write<S>(
    name: Seq<char>,
    value: Option<i32>,
    applied: Seq<TxnView>,
    write: MessageView<S>,
    read: MessageView<S>,
)
    requires
        write is WriteVarRequest,
        read is ReadVarRequest,
    ensures
        var_output(name, var_next_value(value, write), var_next_applied(applied, write), read)
            == OutgoingView::ToManager(
            MessageView::<S>::ReadVarResult {
                txn: read->ReadVarRequest_txn,
                name,
                result: Some(write->write_val),
                result_provide: set![write->WriteVarRequest_txn.key()],
            },
        ),
{
}

/// A retrieval that follows a write answers with the written value.
pub proof fn lemma_retrieve_after_write<S>(
    name: Seq<char>,
    value: Option<i32>,
    applied: Seq<TxnView>,
    write: MessageView<S>,
)
    requires
        write is WriteVarRequest,
    ensures
        var_output(name, var_next_value(value, write), var_next_applied(applied, write), MessageView::<S>::ManagerRetrieve)
            == OutgoingView::<S>::ToManager(MessageView::ManagerRetrieveResult { name, result: Some(write->write_val) }),
{
}

/// The requirements of the next change only grow, and every transaction that reads or writes
/// the variable joins them.
pub proof fn lemma_requires_grow<S>(reqs: Set<u128>, msg: MessageView<S>)
    ensures
        reqs.subset_of(var_next_requires(reqs, msg)),
        msg matches MessageView::ReadVarRequest { txn } ==> var_next_requires(reqs, msg).contains(txn.key()),
        msg matches MessageView::WriteVarRequest { txn, requires: r, .. } ==> {
            &&& var_next_requires(reqs, msg).contains(txn.key())
            &&& r.subset_of(var_next_requires(reqs, msg))
        },
{
}

/// The applied transactions only grow at their end: what was applied stays applied, in order.
pub proof fn lemma_applied_append_only<S>(applied: Seq<TxnView>, msg: MessageView<S>)
    ensures
        var_next_applied(applied, msg).len() >= applied.len(),
        var_next_applied(applied, msg).take(applied.len() as int) == applied,
{
    assert(var_next_applied(applied, msg).take(applied.len() as int) =~= applied);
}

/// The subscribers after `msg`: a subscription appends the subscriber's handle.
pub open spec fn var_next_succs<S>(succs: Seq<S>, msg: MessageView<S>) -> Seq<S> {
    match msg {
        MessageView::SubscribeRequest { sender, .. } => succs.push(sender),
        _ => succs,
    }
}

/// The subscribers after the messages `msgs`, handled in order.
pub open spec fn var_run_succs<S>(succs: Seq<S>, msgs: Seq<MessageView<S>>) -> Seq<S>
    decreases msgs.len(),
{
    if msgs.len() == 0 {
        succs
    } else {
        var_next_succs(var_run_succs(succs, msgs.drop_last()), msgs.last())
    }
}

/// How many times `x` occurs in `s`.
pub open spec fn count_of<S>(s: Seq<S>, x: S) -> nat
    decreases s.len(),
{
    if s.len() == 0 {
        0
    } else {
        count_of(s.drop_last(), x) + if s.last() == x { 1nat } else { 0nat }
    }
}

/// How many of `msgs` subscribe the handle `x`.
pub open spec fn subscriptions_of<S>(msgs: Seq<MessageView<S>>, x: S) -> nat
    decreases msgs.len(),
{
    if msgs.len() == 0 {
        0
    } else {
        subscriptions_of(msgs.drop_last(), x) + if msgs.last() matches MessageView::SubscribeRequest { sender, .. } && sender == x {
            1nat
        } else {
            0nat
        }
    }
}

/// A handle is among the subscribers once for each time it subscribed.
pub proof fn lemma_subscriber_count<S>(succs: Seq<S>, msgs: Seq<MessageView<S>>, x: S)
    ensures
        count_of(var_run_succs(succs, msgs), x) == count_of(succs, x) + subscriptions_of(msgs, x),
    decreases msgs.len(),
{
    if msgs.len() > 0 {
        lemma_subscriber_count(succs, msgs.drop_last(), x);
        let prev = var_run_succs(succs, msgs.drop_last());
        if msgs.last() is SubscribeRequest {
            assert(prev.push(msgs.last()->sender).drop_last() =~= prev);
        }
    }
}

/// A subscriber stays a subscriber.
pub proof fn lemma_subscriber_stays<S>(succs: Seq<S>, msgs: Seq<MessageView<S>>, k: int, m: int, x: S)
    requires
        0 <= k <= m <= msgs.len(),
        var_run_succs(succs, msgs.take(k)).contains(x),
    ensures
        var_run_succs(succs, msgs.take(m)).contains(x),
    decreases m - k,
{
    if k < m {
        assert(msgs.take(k + 1).drop_last() =~= msgs.take(k));
        let prev = var_run_succs(succs, msgs.take(k));
        if msgs[k] is SubscribeRequest {
            let i = choose|i: int| 0 <= i < prev.len() && prev[i] == x;
            assert(prev.push(msgs[k]->sender)[i] == x);
        }
        lemma_subscriber_stays(succs, msgs, k + 1, m, x);
    }
}

/// Every handle that subscribed is sent each later write: after a subscription, the
/// subscribers at any later write include the handle, and the write sends the change
/// (the written value, the write's transaction as provided, what the write requires)
/// to all subscribers.
pub proof fn lemma_subscribers_see_later_writes<S>(
    name: Seq<char>,
    value: Option<i32>,
    applied: Seq<TxnView>,
    succs: Seq<S>,
    msgs: Seq<MessageView<S>>,
    i: int,
    j: int,
)
    requires
        0 <= i < j < msgs.len(),
        msgs[i] is SubscribeRequest,
        msgs[j] is WriteVarRequest,
    ensures
        var_run_succs(succs, msgs.take(j)).contains(msgs[i]->sender),
        var_output(name, value, applied, msgs[j]) == OutgoingView::ToSubscribers(
            MessageView::<S>::PropaMessage {
                propa_change: PropaChangeView {
                    name,
                    new_val: msgs[j]->write_val,
                    provides: set![msgs[j]->WriteVarRequest_txn.key()],
                    requires: msgs[j]->WriteVarRequest_requires,
                },
            },
        ),
{
    assert(msgs.take(i + 1).drop_last() =~= msgs.take(i));
    let prev = var_run_succs(succs, msgs.take(i));
    assert(prev.push(msgs[i]->sender)[prev.len() as int] == msgs[i]->sender);
    lemma_subscriber_stays(succs, msgs, i + 1, j, msgs[i]->sender);
}

/// Only a write changes the variable's value: a write sets it to the written value, and any
/// other message leaves it as it was.
pub proof fn lemma_only_writes_change_value<S>(value: Option<i32>, msg: MessageView<S>)
    ensures
        !(msg is WriteVarRequest) ==> var_next_value(value, msg) == value,
        msg matches MessageView::WriteVarRequest { write_val, .. } ==> var_next_value(value, msg) == Some(write_val),
{
}

/// A read answers with the value the variable holds, and a read that follows a read answers
/// with the same value as the first.
pub proof fn lemma_read_after_read<S>(
    name: Seq<char>,
    value: Option<i32>,
    applied: Seq<TxnView>,
    first: MessageView<S>,
    second: MessageView<S>,
)
    requires
        first is ReadVarRequest,
        second is ReadVarRequest,
    ensures
        var_output(name, value, applied, first) matches OutgoingView::ToManager(
            MessageView::ReadVarResult { result: r1, .. },
        ) && r1 == value,
        var_output(name, var_next_value(value, first), var_next_applied(applied, first), second)
            matches OutgoingView::ToManager(MessageView::ReadVarResult { result: r2, .. }) && r2 == value,
        var_output(name, var_next_value(value, first), var_next_applied(applied, first), MessageView::<S>::ManagerRetrieve)
            == OutgoingView::<S>::ToManager(MessageView::ManagerRetrieveResult { name, result: value }),
{
}

impl<R, S: Clone> VarWorker<R, S> {
    /// A variable worker named `name`, with no value and nothing applied yet.
    pub fn new(name: &str, inbox: R, sender_to_manager: S) -> (w: VarWorker<R, S>)
        ensures
            w.worker.name@ == name@,
            w.worker.inbox == inbox,
            w.worker.sender_to_manager == sender_to_manager,
            w.worker.senders_to_succs@ == Seq::<S>::empty(),
            w.value is None,
            w.applied_txns@ == Seq::<Txn>::empty(),
            w.next_requires@ == Set::<u128>::empty(),
    {
        VarWorker {
            worker: Worker::new(name, inbox, sender_to_manager),
            value: None,
            applied_txns: Vec::new(),
            next_requires: HashSet::new(),
        }
    }

    /// Handles one message and says what to send in answer.
    /// - A read answers the manager with the current value and the last applied transaction,
    ///   and the reading transaction joins the requirements of the next change.
    /// - A write sets the value, applies the transaction, and propagates the change to the
    ///   subscribers; the transaction and what it requires join the requirements of the next change.
    /// - A retrieval answers the manager with the current value.
    /// - A subscription adds the subscriber's handle to the subscribers.
    pub fn handle_message(
        worker: &mut Worker<R, S>,
        curr_val: &mut Option<i32>,
        msg: &Message<S>,
        applied_txns: &mut Vec<Txn>,
        next_requires: &mut HashSet<u128>,
    ) -> (out: Outgoing<S>)
        requires
            var_accepts(msg@, old(applied_txns)@.map_values(|t: Txn| t@)),
        ensures
            out@ == var_output(
                old(worker).name@,
                *old(curr_val),
                old(applied_txns)@.map_values(|t: Txn| t@),
                msg@,
            ),
            *final(curr_val) == var_next_value(*old(curr_val), msg@),
            !(msg is WriteVarRequest) ==> *final(curr_val) == *old(curr_val),
            msg is WriteVarRequest ==> *final(curr_val) == Some(msg->write_val),
            final(applied_txns)@.map_values(|t: Txn| t@) == var_next_applied(
                old(applied_txns)@.map_values(|t: Txn| t@),
                msg@,
            ),
            final(next_requires)@ == var_next_requires(old(next_requires)@, msg@),
            final(worker).name == old(worker).name,
            final(worker).inbox == old(worker).inbox,
            final(worker).sender_to_manager == old(worker).sender_to_manager,
            final(worker).senders_to_succs@.len() == var_next_succs(old(worker).senders_to_succs@, msg@).len(),
            forall|i: int|
                0 <= i < final(worker).senders_to_succs@.len() ==> cloned(
                    #[trigger] var_next_succs(old(worker).senders_to_succs@, msg@)[i],
                    final(worker).senders_to_succs@[i],
                ),
            !(msg is SubscribeRequest) ==> final(worker).senders_to_succs == old(worker).senders_to_succs,
            msg is SubscribeRequest ==> {
                &&& final(worker).senders_to_succs@.len() == old(worker).senders_to_succs@.len() + 1
                &&& final(worker).senders_to_succs@.drop_last() == old(worker).senders_to_succs@
                &&& cloned(msg->sender, final(worker).senders_to_succs@.last())
            },
    {
        let ghost applied_view = applied_txns@.map_values(|t: Txn| t@);
        match msg {
            Message::ReadVarRequest { txn } => {
                let last = applied_txns.len() - 1;
                let latest_txn = singleton_set(applied_txns[last].key());
                let msg_back = Message::ReadVarResult {
                    txn: txn.clone(),
                    name: worker.name.clone(),
                    result: *curr_val,
                    result_provide: latest_txn,
                };
                next_requires.insert(txn.key());
                proof {
                    assert(applied_view.last() == applied_txns@[last as int]@);
                }
                Outgoing::ToManager(msg_back)
            },
            Message::WriteVarRequest { txn, write_val, requires: req } => {
                *curr_val = Some(*write_val);
                extend_set(next_requires, req);
                let msg_propa = Message::PropaMessage {
                    propa_change: PropaChange {
                        name: worker.name.clone(),
                        new_val: *write_val,
                        provides: singleton_set(txn.key()),
                        requires: copy_set(req),
                    },
                };
                applied_txns.push(txn.clone());
                next_requires.insert(txn.key());
                proof {
                    assert(applied_txns@.map_values(|t: Txn| t@) =~= applied_view.push(txn@));
                }
                Outgoing::ToSubscribers(msg_propa)
            },
            Message::ManagerRetrieve => {
                Outgoing::ToManager(
                    Message::ManagerRetrieveResult { name: worker.name.clone(), result: *curr_val },
                )
            },
            Message::SubscribeRequest { subscriber_name: _, sender } => {
                worker.senders_to_succs.push(sender.clone());
                Outgoing::Nothing
            },
            _ => {
                proof {
                    assert(false);
                }
                Outgoing::Nothing
            },
        }
    }
}

} // verus!
