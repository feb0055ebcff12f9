use vstd::prelude::*;
use tokio::sync::mpsc::error::TryRecvError;
use tokio::sync::mpsc::{UnboundedReceiver, UnboundedSender};

verus! {

#[verifier::external_type_specification]
#[verifier::external_body]
#[verifier::reject_recursive_types(T)]
pub struct ExUnboundedSender<T>(UnboundedSender<T>);

#[verifier::external_type_specification]
#[verifier::external_body]
#[verifier::reject_recursive_types(T)]
pub struct ExUnboundedReceiver<T>(UnboundedReceiver<T>);

/// What one non-blocking receive found.
pub enum Received<T> {
    /// The next message of the queue.
    Item(T),
    /// Nothing is queued now; senders remain.
    Empty,
    /// Nothing is queued and every sender is gone: nothing more can come.
    Closed,
}

/// Relies on tokio's `mpsc::unbounded_channel`: a new queue and its two ends.
/// Nothing is stated of them; they are carried through opaque.
#[verifier::external_body]
pub(crate) fn unbounded_channel<T>() -> (r: (UnboundedSender<T>, UnboundedReceiver<T>)) {
    tokio::sync::mpsc::unbounded_channel()
}

/// Relies on tokio's `UnboundedReceiver::try_recv`: it returns at once with a
/// message, or says that the queue is empty or closed. Which of these comes
/// depends on other tasks, so nothing is stated of it.
#[verifier::external_body]
pub(crate) fn try_recv<T>(rx: &mut UnboundedReceiver<T>) -> (r: Received<T>) {
    match rx.try_recv() {
        Ok(m) => Received::Item(m),
        Err(TryRecvError::Empty) => Received::Empty,
        Err(TryRecvError::Closed) => Received::Closed,
    }
}

/// Relies on tokio's `UnboundedSender::send`: it never blocks, and when the
/// receiving end is gone it fails and hands the message back.
#[verifier::external_body]
pub(crate) fn send<T>(tx: &UnboundedSender<T>, msg: T) -> (r: Result<(), T>)
    ensures
        r matches Err(back) ==> back == msg,
{
    match tx.send(msg) {
        Ok(()) => Ok(()),
        Err(e) => Err(e.0),
    }
}

/// Relies on tokio's `Clone` for `UnboundedSender`: one more sender on the
/// same queue.
#[verifier::external_body]
pub(crate) fn clone_sender<T>(tx: &UnboundedSender<T>) -> (r: UnboundedSender<T>) {
    tx.clone()
}

} // verus!
