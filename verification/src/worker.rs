use crate::message::{Message, MessageView};
use vstd::prelude::*;

verus! {

/// What every worker has: its name, its inbox, the handle by which it answers the
/// service manager, and the handles of the workers that subscribed to its changes.
/// `R` is the receiving end of an inbox and `S` the handle by which an inbox is reached;
/// the library only carries them, the program around it does the sending and receiving.
pub struct Worker<R, S> {
    pub name: String,
    pub inbox: R,
    pub sender_to_manager: S,
    pub senders_to_succs: Vec<S>,
}

impl<R, S> Worker<R, S> {
    /// A worker named `name` with no subscribers yet.
    pub fn new(name: &str, inbox: R, sender_to_manager: S) -> (w: Worker<R, S>)
        ensures
            w.name@ == name@,
            w.inbox == inbox,
            w.sender_to_manager == sender_to_manager,
            w.senders_to_succs@ == Seq::<S>::empty(),
    {
        proof {
            broadcast use vstd::string::group_string_axioms;
        }
        Worker {
            name: name.to_string(),
            inbox,
            sender_to_manager,
            senders_to_succs: Vec::new(),
        }
    }
}

/// What a worker sends after it handled a message.
pub enum Outgoing<S> {
    /// one message to the service manager
    ToManager(Message<S>),
    /// one message to each subscriber, in the order in which they subscribed
    ToSubscribers(Message<S>),
    Nothing,
}

pub enum OutgoingView<S> {
    ToManager(MessageView<S>),
    ToSubscribers(MessageView<S>),
    Nothing,
}

impl<S> View for Outgoing<S> {
    type V = OutgoingView<S>;

    open spec fn view(&self) -> OutgoingView<S> {
        match self {
            Outgoing::ToManager(m) => OutgoingView::ToManager(m@),
            Outgoing::ToSubscribers(m) => OutgoingView::ToSubscribers(m@),
            Outgoing::Nothing => OutgoingView::Nothing,
        }
    }
}

} // verus!
