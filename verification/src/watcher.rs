//! The handle through which callers reach the engine.

use crate::channel::{recv_timeout, send, slot, try_recv, unbounded, Received};
use crate::content::{FileContent, FileEvent, FileType, TryError};
use crate::engine::{at_start, FileWatcherInner, DEFAULT_TIMEOUT_SECS};
use crate::protocol::WatchTask;
use vstd::prelude::*;

verus! {

/// What a receive on the event queue hands to the caller: the event, or why
/// there is none. An empty queue and a wait that ran out are both `Empty`;
/// a queue that the engine has left is `Closed`.
pub open spec fn outcome_of<T>(received: Received<T>) -> Result<T, TryError> {
    match received {
        Received::Message(event) => Ok(event),
        Received::Empty => Err(TryError::Empty),
        Received::TimedOut => Err(TryError::Empty),
        Received::Disconnected => Err(TryError::Closed),
    }
}

/// What a receive on the event queue hands to the caller.
pub fn outcome<T>(received: Received<T>) -> (result: Result<T, TryError>)
    ensures
        result == outcome_of(received),
{
    match received {
        Received::Message(event) => Ok(event),
        Received::Empty => Err(TryError::Empty),
        Received::TimedOut => Err(TryError::Empty),
        Received::Disconnected => Err(TryError::Closed),
    }
}

/// A request to subscribe, made of the two ends of a fresh slot: the request
/// carries the token, the type, the path and the sending end; the receiving
/// end is for the caller, who finds the initial result there.
pub fn watch_request<T>(
    opaque: T,
    tp: FileType,
    path: String,
    ends: (oneshot::Sender<FileContent>, oneshot::Receiver<FileContent>),
) -> (parts: (WatchTask<T>, oneshot::Receiver<FileContent>))
    ensures
        parts.0 == (WatchTask::Watch { opaque, tp, path, result: ends.0 }),
        parts.1 == ends.1,
{
    let (os, og) = ends;
    (WatchTask::Watch { opaque, tp, path, result: os }, og)
}

/// The caller's end of a watcher: requests go in, events come out.
#[verifier::reject_recursive_types(T)]
pub struct FileWatcher<T: Clone + Send + 'static> {
    sender: Option<crossbeam::channel::Sender<WatchTask<T>>>,
    receiver: crossbeam::channel::Receiver<FileEvent<T>>,
}

impl<T: Clone + Send + 'static> FileWatcher<T> {
    /// The handle can still send requests.
    pub closed spec fn is_open(&self) -> bool {
        self.sender is Some
    }

    /// A new watcher: the handle for the callers, and the engine that the
    /// handle talks to. The engine watches nothing yet and waits for a
    /// request.
    pub fn new() -> (parts: (FileWatcher<T>, FileWatcherInner<T>))
        ensures
            parts.0.is_open(),
            parts.1.wf(),
            parts.1@ == at_start::<T>(),
            parts.1.timeout_secs() == DEFAULT_TIMEOUT_SECS,
    {
        let (tx, rx) = unbounded();
        let (itx, irx) = unbounded();
        (FileWatcher { sender: Some(itx), receiver: rx }, FileWatcherInner::new(tx, irx))
    }

    /// Subscribes `opaque` to the file at `path`. The initial content of
    /// the file, or the reason why it cannot be watched, arrives once at the
    /// receiver that is returned. If the engine is gone, nothing arrives.
    pub fn add_watch<P: Into<String>>(&self, tp: FileType, path: P, opaque: T) -> (result:
        oneshot::Receiver<FileContent>) {
        let (task, result) = watch_request(opaque, tp, path.into(), slot());
        self.submit(task);
        result
    }

    /// Stops watching the file at `path`, for every subscriber.
    pub fn remove_watch<P: Into<String>>(&self, path: P) {
        self.submit(WatchTask::Unwatch(path.into()));
    }

    /// Queues a request for the engine, if it can still be reached.
    fn submit(&self, task: WatchTask<T>) -> (queued: bool)
        ensures
            queued ==> self.is_open(),
    {
        match &self.sender {
            Some(sender) => send(sender, task),
            None => false,
        }
    }

    /// The next event. Without a timeout the call returns at once; with one
    /// it waits that long for an event.
    pub fn try_recv(&self, timeout: Option<std::time::Duration>) -> (result: Result<
        FileEvent<T>,
        TryError,
    >) {
        match timeout {
            Some(to) => outcome(recv_timeout(&self.receiver, to)),
            None => outcome(try_recv(&self.receiver)),
        }
    }

    /// Gives up the sending end of the request queue. The engine stops when
    /// it next waits for a request and finds the queue closed.
    pub fn close(&mut self)
        ensures
            !final(self).is_open(),
    {
        self.sender = None;
    }
}

} // verus!
