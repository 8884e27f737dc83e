//! What passes between the engine and whoever drives it.
//!
//! The engine never touches the file system. When it needs to know
//! something about a file it says so with an [`Action`]; the driver looks at
//! the file and hands back an [`Answer`]. Requests from callers reach the
//! engine as [`WatchTask`]s.

use crate::content::{ContentView, FileContent, FileType};
use crate::table::Timestamp;
use vstd::prelude::*;

verus! {

/// What opening and reading a file came to.
#[derive(Debug, PartialEq, Eq)]
pub enum ReadOutcome {
    /// The whole file, as text.
    Text(String),
    /// The file could not be opened.
    OpenFailed(String),
    /// The file was opened, but it could not be read or is not text.
    ReadFailed(String),
}

/// A [`ReadOutcome`] as a mathematical value.
pub enum ReadView {
    Text(Seq<char>),
    OpenFailed(Seq<char>),
    ReadFailed(Seq<char>),
}

impl View for ReadOutcome {
    type V = ReadView;

    open spec fn view(&self) -> ReadView {
        match self {
            ReadOutcome::Text(text) => ReadView::Text(text@),
            ReadOutcome::OpenFailed(message) => ReadView::OpenFailed(message@),
            ReadOutcome::ReadFailed(message) => ReadView::ReadFailed(message@),
        }
    }
}

/// The payload that tells a subscriber of a read: the text, or the message
/// of whichever failure there was.
pub open spec fn content_of(read: ReadView) -> ContentView {
    match read {
        ReadView::Text(text) => ContentView::Text(text),
        ReadView::OpenFailed(message) => ContentView::Error(message),
        ReadView::ReadFailed(message) => ContentView::Error(message),
    }
}

impl ReadOutcome {
    /// The payload that tells a subscriber of this read.
    pub fn into_content(self) -> (content: FileContent)
        ensures
            content@ == content_of(self@),
    {
        match self {
            ReadOutcome::Text(text) => FileContent::Text(text),
            ReadOutcome::OpenFailed(message) => FileContent::Error(message),
            ReadOutcome::ReadFailed(message) => FileContent::Error(message),
        }
    }
}

/// What the file system answered.
#[derive(Debug, PartialEq, Eq)]
pub enum Answer {
    /// The modification time of the file, or why it could not be had.
    Stat(Result<Timestamp, String>),
    /// What opening and reading the file came to.
    Read(ReadOutcome),
}

/// An [`Answer`] as a mathematical value.
pub enum AnswerView {
    Stat(Result<Timestamp, Seq<char>>),
    Read(ReadView),
}

impl View for Answer {
    type V = AnswerView;

    open spec fn view(&self) -> AnswerView {
        match self {
            Answer::Stat(Ok(modified)) => AnswerView::Stat(Ok(*modified)),
            Answer::Stat(Err(message)) => AnswerView::Stat(Err(message@)),
            Answer::Read(read) => AnswerView::Read(read@),
        }
    }
}

/// What the engine needs next.
#[derive(Debug, PartialEq, Eq)]
pub enum Action {
    /// Wait for a request, but not longer than the timeout.
    Wait,
    /// Take a request that is already queued, without waiting.
    Drain,
    /// Ask for the modification time of the file at this path.
    Stat(String),
    /// Open the file at this path and read all of it, as this type of file.
    Read(String, FileType),
    /// Nothing: the engine has stopped.
    Stop,
}

/// An [`Action`] as a mathematical value.
pub enum ActionView {
    Wait,
    Drain,
    Stat(Seq<char>),
    Read(Seq<char>, FileType),
    Stop,
}

impl View for Action {
    type V = ActionView;

    open spec fn view(&self) -> ActionView {
        match self {
            Action::Wait => ActionView::Wait,
            Action::Drain => ActionView::Drain,
            Action::Stat(path) => ActionView::Stat(path@),
            Action::Read(path, tp) => ActionView::Read(path@, *tp),
            Action::Stop => ActionView::Stop,
        }
    }
}

/// A request to the engine.
pub enum WatchTask<T> {
    /// Subscribe `opaque` to the file at `path`. The initial content, or the
    /// error, goes to `result`.
    Watch { opaque: T, tp: FileType, path: String, result: oneshot::Sender<FileContent> },
    /// Stop watching the file at this path, for every subscriber.
    Unwatch(String),
}

/// A [`WatchTask`] as a mathematical value. The slot for the initial result
/// stands for itself: it is the caller's own, and no other will do.
pub enum TaskView<T> {
    Watch { opaque: T, tp: FileType, path: Seq<char>, result: oneshot::Sender<FileContent> },
    Unwatch(Seq<char>),
}

impl<T> View for WatchTask<T> {
    type V = TaskView<T>;

    open spec fn view(&self) -> TaskView<T> {
        match self {
            WatchTask::Watch { opaque, tp, path, result } => TaskView::Watch {
                opaque: *opaque,
                tp: *tp,
                path: path@,
                result: *result,
            },
            WatchTask::Unwatch(path) => TaskView::Unwatch(path@),
        }
    }
}

/// What the engine is told.
pub enum Event<T> {
    /// A request arrived.
    Command(WatchTask<T>),
    /// No request arrived within the timeout.
    Timeout,
    /// No request is queued.
    Empty,
    /// No request is queued and none can arrive any more.
    Closed,
    /// The file system answered.
    Answer(Answer),
}

/// An [`Event`] as a mathematical value.
pub enum EventView<T> {
    Command(TaskView<T>),
    Timeout,
    Empty,
    Closed,
    Answer(AnswerView),
}

impl<T> View for Event<T> {
    type V = EventView<T>;

    open spec fn view(&self) -> EventView<T> {
        match self {
            Event::Command(task) => EventView::Command(task@),
            Event::Timeout => EventView::Timeout,
            Event::Empty => EventView::Empty,
            Event::Closed => EventView::Closed,
            Event::Answer(answer) => EventView::Answer(answer@),
        }
    }
}

} // verus!
