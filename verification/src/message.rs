use crate::transaction::{Txn, TxnView};
use crate::txn_set::copy_set;
use std::collections::HashSet;
use vstd::prelude::*;

verus! {

#[derive(Debug, Clone, Copy)]
pub enum LockType {
    WLock,
    RLock,
}

/// A lock that a transaction holds on a name.
pub struct Lock {
    pub txn: Txn,
    pub lock_t: LockType,
}

/// A change of a state variable or definition, as it propagates to the definitions
/// that depend on it: the new value, the transactions whose effect it carries (`provides`)
/// and the transactions that must be applied before it (`requires`).
/// Transactions are held by their keys (`Txn::key`).
#[derive(PartialEq, Eq, Debug)]
pub struct PropaChange {
    pub name: String,
    pub new_val: i32,
    pub provides: HashSet<u128>,
    pub requires: HashSet<u128>,
}

pub struct PropaChangeView {
    pub name: Seq<char>,
    pub new_val: i32,
    pub provides: Set<u128>,
    pub requires: Set<u128>,
}

impl View for PropaChange {
    type V = PropaChangeView;

    open spec fn view(&self) -> PropaChangeView {
        PropaChangeView {
            name: self.name@,
            new_val: self.new_val,
            provides: self.provides@,
            requires: self.requires@,
        }
    }
}

impl Clone for PropaChange {
    fn clone(&self) -> (copy: Self)
        ensures
            copy@ == self@,
    {
        PropaChange {
            name: self.name.clone(),
            new_val: self.new_val,
            provides: copy_set(&self.provides),
            requires: copy_set(&self.requires),
        }
    }
}

/// The messages that the service manager and the workers exchange.
/// `S` is the type of the handle by which a worker's inbox is reached.
#[derive(Debug)]
pub enum Message<S> {
    /// manager -> variable worker
    ReadVarRequest { txn: Txn },
    /// manager -> definition worker
    ReadDefRequest { txn: Txn, requires: HashSet<u128> },
    /// variable worker -> manager
    ReadVarResult { txn: Txn, name: String, result: Option<i32>, result_provide: HashSet<u128> },
    ReadDefResult { txn: Txn, name: String, result: Option<i32>, result_provide: HashSet<u128> },
    /// manager -> variable worker
    WriteVarRequest { txn: Txn, write_val: i32, requires: HashSet<u128> },
    /// variable worker -> definition workers that subscribed to it
    PropaMessage { propa_change: PropaChange },
    ManagerRetrieve,
    ManagerRetrieveResult { name: String, result: Option<i32> },
    SubscribeRequest { subscriber_name: String, sender: S },
    SubscribeGrant {},
}

impl<S: Clone> Clone for Message<S> {
    fn clone(&self) -> (copy: Self)
        ensures
            !(self is SubscribeRequest) ==> copy@ == self@,
            self is SubscribeRequest ==> {
                &&& copy is SubscribeRequest
                &&& copy->subscriber_name@ == self->subscriber_name@
                &&& cloned(self->sender, copy->sender)
            },
    {
        match self {
            Message::ReadVarRequest { txn } => Message::ReadVarRequest { txn: txn.clone() },
            Message::ReadDefRequest { txn, requires: req } => Message::ReadDefRequest {
                txn: txn.clone(),
                requires: copy_set(req),
            },
            Message::ReadVarResult { txn, name, result, result_provide } => Message::ReadVarResult {
                txn: txn.clone(),
                name: name.clone(),
                result: *result,
                result_provide: copy_set(result_provide),
            },
            Message::ReadDefResult { txn, name, result, result_provide } => Message::ReadDefResult {
                txn: txn.clone(),
                name: name.clone(),
                result: *result,
                result_provide: copy_set(result_provide),
            },
            Message::WriteVarRequest { txn, write_val, requires: req } => Message::WriteVarRequest {
                txn: txn.clone(),
                write_val: *write_val,
                requires: copy_set(req),
            },
            Message::PropaMessage { propa_change } => Message::PropaMessage {
                propa_change: propa_change.clone(),
            },
            Message::ManagerRetrieve => Message::ManagerRetrieve,
            Message::ManagerRetrieveResult { name, result } => Message::ManagerRetrieveResult {
                name: name.clone(),
                result: *result,
            },
            Message::SubscribeRequest { subscriber_name, sender } => Message::SubscribeRequest {
                subscriber_name: subscriber_name.clone(),
                sender: sender.clone(),
            },
            Message::SubscribeGrant {} => Message::SubscribeGrant {},
        }
    }
}

pub enum MessageView<S> {
    ReadVarRequest { txn: TxnView },
    ReadDefRequest { txn: TxnView, requires: Set<u128> },
    ReadVarResult { txn: TxnView, name: Seq<char>, result: Option<i32>, result_provide: Set<u128> },
    ReadDefResult { txn: TxnView, name: Seq<char>, result: Option<i32>, result_provide: Set<u128> },
    WriteVarRequest { txn: TxnView, write_val: i32, requires: Set<u128> },
    PropaMessage { propa_change: PropaChangeView },
    ManagerRetrieve,
    ManagerRetrieveResult { name: Seq<char>, result: Option<i32> },
    SubscribeRequest { subscriber_name: Seq<char>, sender: S },
    SubscribeGrant,
}

impl<S> View for Message<S> {
    type V = MessageView<S>;

    open spec fn view(&self) -> MessageView<S> {
        match self {
            Message::ReadVarRequest { txn } => MessageView::ReadVarRequest { txn: txn@ },
            Message::ReadDefRequest { txn, requires: req } => MessageView::ReadDefRequest {
                txn: txn@,
                requires: req@,
            },
            Message::ReadVarResult { txn, name, result, result_provide } => MessageView::ReadVarResult {
                txn: txn@,
                name: name@,
                result: *result,
                result_provide: result_provide@,
            },
            Message::ReadDefResult { txn, name, result, result_provide } => MessageView::ReadDefResult {
                txn: txn@,
                name: name@,
                result: *result,
                result_provide: result_provide@,
            },
            Message::WriteVarRequest { txn, write_val, requires: req } => MessageView::WriteVarRequest {
                txn: txn@,
                write_val: *write_val,
                requires: req@,
            },
            Message::PropaMessage { propa_change } => MessageView::PropaMessage {
                propa_change: propa_change@,
            },
            Message::ManagerRetrieve => MessageView::ManagerRetrieve,
            Message::ManagerRetrieveResult { name, result } => MessageView::ManagerRetrieveResult {
                name: name@,
                result: *result,
            },
            Message::SubscribeRequest { subscriber_name, sender } => MessageView::SubscribeRequest {
                subscriber_name: subscriber_name@,
                sender: *sender,
            },
            Message::SubscribeGrant {} => MessageView::SubscribeGrant,
        }
    }
}

} // verus!
