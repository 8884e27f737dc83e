//! The queues that connect the engine to its callers.
//!
//! The types and functions of `crossbeam` and `oneshot` are trusted: their
//! contracts below are stated, not proved. What comes out of a queue depends
//! on other threads, so the contracts say only what holds of every outcome.

use vstd::prelude::*;

verus! {

/// The sending end of a `crossbeam` channel.
#[verifier::external_type_specification]
#[verifier::external_body]
#[verifier::reject_recursive_types(T)]
pub struct ExQueueSender<T>(crossbeam::channel::Sender<T>);

/// The receiving end of a `crossbeam` channel.
#[verifier::external_type_specification]
#[verifier::external_body]
#[verifier::reject_recursive_types(T)]
pub struct ExQueueReceiver<T>(crossbeam::channel::Receiver<T>);

/// The sending end of a `oneshot` channel.
#[verifier::external_type_specification]
#[verifier::external_body]
#[verifier::reject_recursive_types(T)]
pub struct ExSlotSender<T>(oneshot::Sender<T>);

/// The receiving end of a `oneshot` channel.
#[verifier::external_type_specification]
#[verifier::external_body]
#[verifier::reject_recursive_types(T)]
pub struct ExSlotReceiver<T>(oneshot::Receiver<T>);

/// `std::time::Duration::from_secs`. The duration is opaque to the proofs.
pub assume_specification[ std::time::Duration::from_secs ](secs: u64) -> (duration:
    std::time::Duration)
;

/// What a receive on a queue came back with.
pub enum Received<T> {
    /// The next message of the queue.
    Message(T),
    /// Nothing is queued right now.
    Empty,
    /// Nothing arrived in the time allowed.
    TimedOut,
    /// Nothing is queued and every sender is gone.
    Disconnected,
}

/// `crossbeam::channel::unbounded`: the two ends of a new queue without a
/// bound on its length.
#[verifier::external_body]
pub(crate) fn unbounded<T>() -> (ends: (
    crossbeam::channel::Sender<T>,
    crossbeam::channel::Receiver<T>,
)) {
    crossbeam::channel::unbounded()
}

/// `crossbeam::channel::Sender::send`: queues the message, unless every
/// receiver is gone. The result says whether the message was queued.
#[verifier::external_body]
pub(crate) fn send<T>(sender: &crossbeam::channel::Sender<T>, message: T) -> (queued: bool) {
    sender.send(message).is_ok()
}

/// `crossbeam::channel::Receiver::try_recv`: takes the next message without
/// waiting. It never reports a timeout.
#[verifier::external_body]
pub(crate) fn try_recv<T>(receiver: &crossbeam::channel::Receiver<T>) -> (received: Received<T>)
    ensures
        !(received is TimedOut),
{
    match receiver.try_recv() {
        Ok(message) => Received::Message(message),
        Err(crossbeam::channel::TryRecvError::Empty) => Received::Empty,
        Err(crossbeam::channel::TryRecvError::Disconnected) => Received::Disconnected,
    }
}

/// `crossbeam::channel::Receiver::recv_timeout`: waits for the next message,
/// at most for the given time. It never reports an empty queue: it waits.
#[verifier::external_body]
pub(crate) fn recv_timeout<T>(
    receiver: &crossbeam::channel::Receiver<T>,
    timeout: std::time::Duration,
) -> (received: Received<T>)
    ensures
        !(received is Empty),
{
    match receiver.recv_timeout(timeout) {
        Ok(message) => Received::Message(message),
        Err(crossbeam::channel::RecvTimeoutError::Timeout) => Received::TimedOut,
        Err(crossbeam::channel::RecvTimeoutError::Disconnected) => Received::Disconnected,
    }
}

/// `oneshot::channel`: the two ends of a new slot for a single message.
#[verifier::external_body]
pub(crate) fn slot<T>() -> (ends: (oneshot::Sender<T>, oneshot::Receiver<T>)) {
    oneshot::channel()
}

/// `oneshot::Sender::send`: puts the message into the slot, unless the
/// receiver is gone. The result says whether the message was put.
#[verifier::external_body]
pub(crate) fn fulfil<T>(sink: oneshot::Sender<T>, message: T) -> (put: bool) {
    sink.send(message).is_ok()
}

} // verus!
