//! The engine: the worker that owns the watch table.
//!
//! The engine is a state machine. In each step it is told one thing, an
//! [`Event`], and says what it needs next, an [`Action`]. It repeats two
//! phases. First it waits for a request and then takes every request that is
//! already queued, so that a burst of registrations is applied before the
//! files are looked at again. Then it makes one pass over the table in the
//! order of the paths, and tells the subscribers of every file whose
//! modification time has moved on.

use crate::channel::{fulfil, recv_timeout, send, try_recv, Received};
use crate::content::{ContentView, FileContent, FileEvent, FileType};
use crate::protocol::{
    content_of, Action, ActionView, Answer, AnswerView, Event, EventView, ReadOutcome, ReadView,
    TaskView, WatchTask,
};
use crate::table::{
    position, sorted, watches, with_modified, with_subscriber, with_watch, without, without_all,
    Timestamp, WatchTable, WatchView,
};
use vstd::prelude::*;

verus! {

/// The seconds that an engine waits for a request before it looks at the
/// files again.
pub const DEFAULT_TIMEOUT_SECS: u64 = 1;

/// Where the engine stands in its cycle.
pub enum StageView<T> {
    /// It waits for a request, up to the timeout.
    Wait,
    /// It takes the requests that are already queued.
    Drain,
    /// A subscription waits for the file: for its modification time where
    /// `seen` is `None` and the path is new, else for its content. Its
    /// initial result will go to `result`.
    Register {
        opaque: T,
        tp: FileType,
        path: Seq<char>,
        result: oneshot::Sender<FileContent>,
        seen: Option<Timestamp>,
    },
    /// The pass over the table waits for the file of the entry at `cursor`:
    /// for its modification time where `seen` is `None`, else for its
    /// content.
    Poll { cursor: int, seen: Option<Timestamp> },
    /// The request queue is closed and the engine has stopped.
    Stopped,
}

/// The engine as a mathematical value.
pub struct EngineView<T> {
    /// The watch table.
    pub tasks: Seq<WatchView<T>>,
    /// The paths that the current pass has marked for eviction.
    pub marked: Seq<Seq<char>>,
    /// Where the engine stands in its cycle.
    pub stage: StageView<T>,
}

/// The table is sorted, and a pass in progress stands at one of its entries;
/// where it waits for the content of the file, the modification time that
/// it has seen is later than the entry's.
pub open spec fn well_formed<T>(m: EngineView<T>) -> bool {
    &&& sorted(m.tasks)
    &&& m.stage matches StageView::Poll { cursor, seen } ==> {
        &&& 0 <= cursor < m.tasks.len()
        &&& seen matches Some(modified) ==> modified.nanos > m.tasks[cursor].modified.nanos
    }
}

/// The engine at its start: nothing watched, waiting for a request.
pub open spec fn at_start<T>() -> EngineView<T> {
    EngineView { tasks: Seq::empty(), marked: Seq::empty(), stage: StageView::Wait }
}

/// The pass goes on at index `cursor`. Past the last entry the pass ends:
/// the marked entries leave the table, all at once, and the engine waits for
/// requests again.
pub open spec fn proceed<T>(
    tasks: Seq<WatchView<T>>,
    marked: Seq<Seq<char>>,
    cursor: int,
) -> EngineView<T> {
    if 0 <= cursor < tasks.len() {
        EngineView { tasks, marked, stage: StageView::Poll { cursor, seen: None } }
    } else {
        EngineView {
            tasks: without_all(tasks, marked),
            marked: Seq::empty(),
            stage: StageView::Wait,
        }
    }
}

/// The engine takes up a request. Unwatching takes the whole entry out,
/// whoever subscribed to it. A subscription needs the file first.
pub open spec fn accepted<T>(
    tasks: Seq<WatchView<T>>,
    marked: Seq<Seq<char>>,
    task: TaskView<T>,
) -> EngineView<T> {
    match task {
        TaskView::Watch { opaque, tp, path, result } => EngineView {
            tasks,
            marked,
            stage: StageView::Register { opaque, tp, path, result, seen: None },
        },
        TaskView::Unwatch(path) => EngineView {
            tasks: without(tasks, path),
            marked,
            stage: StageView::Drain,
        },
    }
}

/// A pending subscription is told of the file.
///
/// On a path that is watched already the subscriber joins the entry,
/// whatever the read came to. A new path gets an entry only if its
/// modification time could be had and the file could be read. An answer of
/// the wrong kind changes nothing.
pub open spec fn registered<T>(
    tasks: Seq<WatchView<T>>,
    marked: Seq<Seq<char>>,
    opaque: T,
    tp: FileType,
    path: Seq<char>,
    result: oneshot::Sender<FileContent>,
    seen: Option<Timestamp>,
    answer: AnswerView,
) -> EngineView<T> {
    let here = EngineView {
        tasks,
        marked,
        stage: StageView::Register { opaque, tp, path, result, seen },
    };
    let done = EngineView { tasks, marked, stage: StageView::Drain };
    if watches(tasks, path) {
        match answer {
            AnswerView::Read(_) => EngineView {
                tasks: with_subscriber(tasks, position(tasks, path), opaque),
                ..done
            },
            AnswerView::Stat(_) => here,
        }
    } else {
        match (seen, answer) {
            (None, AnswerView::Stat(Ok(modified))) => EngineView {
                stage: StageView::Register { opaque, tp, path, result, seen: Some(modified) },
                ..here
            },
            (None, AnswerView::Stat(Err(_))) => done,
            (Some(modified), AnswerView::Read(ReadView::Text(_))) => EngineView {
                tasks: with_watch(tasks, WatchView { path, opaque: seq![opaque], tp, modified }),
                ..done
            },
            (Some(_), AnswerView::Read(_)) => done,
            _ => here,
        }
    }
}

/// An [`Initial`] as a mathematical value: the slot itself, and the content
/// that goes into it.
pub struct InitialView {
    pub result: oneshot::Sender<FileContent>,
    pub content: ContentView,
}

/// The content that a pending subscription is handed when it is told of
/// the file, if this answer settles it.
pub open spec fn settled<T>(
    tasks: Seq<WatchView<T>>,
    path: Seq<char>,
    seen: Option<Timestamp>,
    answer: AnswerView,
) -> Option<ContentView> {
    if watches(tasks, path) {
        match answer {
            AnswerView::Read(read) => Some(content_of(read)),
            AnswerView::Stat(_) => None,
        }
    } else {
        match (seen, answer) {
            (None, AnswerView::Stat(Err(message))) => Some(ContentView::Error(message)),
            (Some(_), AnswerView::Read(read)) => Some(content_of(read)),
            _ => None,
        }
    }
}

/// The pass is told of the file of the entry at `cursor`.
///
/// A file whose modification time cannot be had, or that cannot be opened,
/// is marked for eviction. A file that is not newer than the entry says is
/// left alone. A newer file is read; only a read that succeeds moves the
/// entry's modification time on. So a file whose read fails is read again
/// in every pass, for as long as its modification time stays ahead of the
/// entry's. An answer of the wrong kind changes nothing.
pub open spec fn polled<T>(
    tasks: Seq<WatchView<T>>,
    marked: Seq<Seq<char>>,
    cursor: int,
    seen: Option<Timestamp>,
    answer: AnswerView,
) -> EngineView<T> {
    let here = EngineView { tasks, marked, stage: StageView::Poll { cursor, seen } };
    match (seen, answer) {
        (None, AnswerView::Stat(Err(_))) => proceed(
            tasks,
            marked.push(tasks[cursor].path),
            cursor + 1,
        ),
        (None, AnswerView::Stat(Ok(modified))) => if modified.nanos > tasks[cursor].modified.nanos {
            EngineView { stage: StageView::Poll { cursor, seen: Some(modified) }, ..here }
        } else {
            proceed(tasks, marked, cursor + 1)
        },
        (Some(_), AnswerView::Read(ReadView::OpenFailed(_))) => proceed(
            tasks,
            marked.push(tasks[cursor].path),
            cursor + 1,
        ),
        (Some(_), AnswerView::Read(ReadView::ReadFailed(_))) => proceed(tasks, marked, cursor + 1),
        (Some(modified), AnswerView::Read(ReadView::Text(_))) => proceed(
            with_modified(tasks, cursor, modified),
            marked,
            cursor + 1,
        ),
        _ => here,
    }
}

/// The subscribers that the pass notifies when it is told of the file of
/// the entry at `cursor`, and what it tells them: every subscriber of the
/// entry, if the file was opened; the text, or the message of the failed
/// read.
pub open spec fn noticed<T>(
    tasks: Seq<WatchView<T>>,
    cursor: int,
    seen: Option<Timestamp>,
    answer: AnswerView,
) -> Option<(Seq<T>, ContentView)> {
    match (seen, answer) {
        (Some(_), AnswerView::Read(ReadView::ReadFailed(message))) => Some(
            (tasks[cursor].opaque, ContentView::Error(message)),
        ),
        (Some(_), AnswerView::Read(ReadView::Text(text))) => Some(
            (tasks[cursor].opaque, ContentView::Text(text)),
        ),
        _ => None,
    }
}

/// One step of the engine: the state after the event `e` in the state `m`.
/// An event that the stage does not wait for changes nothing.
pub open spec fn next<T>(m: EngineView<T>, e: EventView<T>) -> EngineView<T> {
    match m.stage {
        StageView::Wait => match e {
            EventView::Command(task) => accepted(m.tasks, m.marked, task),
            EventView::Timeout => proceed(m.tasks, Seq::empty(), 0),
            EventView::Closed => EngineView { stage: StageView::Stopped, ..m },
            _ => m,
        },
        StageView::Drain => match e {
            EventView::Command(task) => accepted(m.tasks, m.marked, task),
            EventView::Empty => proceed(m.tasks, Seq::empty(), 0),
            EventView::Closed => proceed(m.tasks, Seq::empty(), 0),
            _ => m,
        },
        StageView::Register { opaque, tp, path, result, seen } => match e {
            EventView::Answer(answer) => registered(
                m.tasks,
                m.marked,
                opaque,
                tp,
                path,
                result,
                seen,
                answer,
            ),
            _ => m,
        },
        StageView::Poll { cursor, seen } => match e {
            EventView::Answer(answer) => polled(m.tasks, m.marked, cursor, seen, answer),
            _ => m,
        },
        StageView::Stopped => m,
    }
}

/// What the engine needs next in the state `m`.
pub open spec fn wanted<T>(m: EngineView<T>) -> ActionView {
    match m.stage {
        StageView::Wait => ActionView::Wait,
        StageView::Drain => ActionView::Drain,
        StageView::Register { path, tp, seen, .. } => if watches(m.tasks, path) || seen is Some {
            ActionView::Read(path, tp)
        } else {
            ActionView::Stat(path)
        },
        StageView::Poll { cursor, seen } => if seen is Some {
            ActionView::Read(m.tasks[cursor].path, m.tasks[cursor].tp)
        } else {
            ActionView::Stat(m.tasks[cursor].path)
        },
        StageView::Stopped => ActionView::Stop,
    }
}

/// The initial result that the step on `e` in the state `m` delivers, and
/// the slot that it goes to: the one that came with the request.
pub open spec fn initial_of<T>(m: EngineView<T>, e: EventView<T>) -> Option<InitialView> {
    match (m.stage, e) {
        (StageView::Register { path, result, seen, .. }, EventView::Answer(answer)) => match settled(
            m.tasks,
            path,
            seen,
            answer,
        ) {
            Some(content) => Some(InitialView { result, content }),
            None => None,
        },
        _ => None,
    }
}

/// The subscribers that the step on `e` in the state `m` notifies, and what
/// it tells them.
pub open spec fn notice_of<T>(m: EngineView<T>, e: EventView<T>) -> Option<(Seq<T>, ContentView)> {
    match (m.stage, e) {
        (StageView::Poll { cursor, seen }, EventView::Answer(answer)) => noticed(
            m.tasks,
            cursor,
            seen,
            answer,
        ),
        _ => None,
    }
}

/// `events` tells every subscriber of `content`, one event each, in the
/// order of the subscribers. Each event holds a clone of the subscriber's
/// token.
pub open spec fn fans_out<T: Clone>(
    subscribers: Seq<T>,
    content: ContentView,
    events: Seq<FileEvent<T>>,
) -> bool {
    &&& events.len() == subscribers.len()
    &&& forall|i: int|
        0 <= i < events.len() ==> cloned(subscribers[i], (#[trigger] events[i]).opaque)
            && events[i].content@ == content
}

/// One event for each subscriber, each with its own copy of the content.
pub fn fan_out<T: Clone>(subscribers: &Vec<T>, content: &FileContent) -> (events: Vec<
    FileEvent<T>,
>)
    ensures
        fans_out(subscribers@, content@, events@),
{
    let mut events: Vec<FileEvent<T>> = Vec::new();
    let mut i: usize = 0;
    while i < subscribers.len()
        invariant
            i <= subscribers.len(),
            events.len() == i,
            forall|j: int|
                0 <= j < i ==> cloned(subscribers@[j], (#[trigger] events@[j]).opaque)
                    && events@[j].content@ == content@,
        decreases subscribers.len() - i,
    {
        events.push(FileEvent { opaque: subscribers[i].clone(), content: content.clone() });
        i += 1;
    }
    events
}

/// What a receive on the request queue tells the engine: the request
/// itself, as it was sent, or why there is none.
pub open spec fn arrival<T>(received: Received<WatchTask<T>>) -> Event<T> {
    match received {
        Received::Message(task) => Event::Command(task),
        Received::Empty => Event::Empty,
        Received::TimedOut => Event::Timeout,
        Received::Disconnected => Event::Closed,
    }
}

/// What a receive on the request queue tells the engine.
pub fn incoming<T>(received: Received<WatchTask<T>>) -> (event: Event<T>)
    ensures
        event == arrival(received),
{
    match received {
        Received::Message(task) => Event::Command(task),
        Received::Empty => Event::Empty,
        Received::TimedOut => Event::Timeout,
        Received::Disconnected => Event::Closed,
    }
}

/// Where the engine stands in its cycle, with the slot that a pending
/// subscription's initial result goes to.
enum Stage<T> {
    Wait,
    Drain,
    Register {
        opaque: T,
        tp: FileType,
        path: String,
        result: oneshot::Sender<FileContent>,
        seen: Option<Timestamp>,
    },
    Poll { cursor: usize, seen: Option<Timestamp> },
    Stopped,
}

impl<T> View for Stage<T> {
    type V = StageView<T>;

    closed spec fn view(&self) -> StageView<T> {
        match self {
            Stage::Wait => StageView::Wait,
            Stage::Drain => StageView::Drain,
            Stage::Register { opaque, tp, path, result, seen } => StageView::Register {
                opaque: *opaque,
                tp: *tp,
                path: path@,
                result: *result,
                seen: *seen,
            },
            Stage::Poll { cursor, seen } => StageView::Poll { cursor: *cursor as int, seen: *seen },
            Stage::Stopped => StageView::Stopped,
        }
    }
}

/// An initial result and the slot that it goes to.
pub struct Initial {
    /// Where the subscriber waits for the result.
    pub result: oneshot::Sender<FileContent>,
    /// The content of the file, or why it could not be had.
    pub content: FileContent,
}

impl View for Initial {
    type V = InitialView;

    open spec fn view(&self) -> InitialView {
        InitialView { result: self.result, content: self.content@ }
    }
}

/// What a step of the engine hands out.
pub struct Output<T> {
    /// What the engine needs next.
    pub action: Action,
    /// The notifications of this step, in the order of the subscribers.
    pub events: Vec<FileEvent<T>>,
    /// The initial result of the subscription that this step settled.
    pub initial: Option<Initial>,
}

/// The engine.
#[verifier::reject_recursive_types(T)]
pub struct FileWatcherInner<T: Clone> {
    sender: crossbeam::channel::Sender<FileEvent<T>>,
    commands: crossbeam::channel::Receiver<WatchTask<T>>,
    tasks: WatchTable<T>,
    timeout: u64,
    stage: Stage<T>,
    to_remove: Vec<String>,
}

impl<T: Clone> View for FileWatcherInner<T> {
    type V = EngineView<T>;

    closed spec fn view(&self) -> EngineView<T> {
        EngineView {
            tasks: self.tasks@,
            marked: self.to_remove@.map_values(|p: String| p@),
            stage: self.stage@,
        }
    }
}

impl<T: Clone> FileWatcherInner<T> {
    /// The engine is well formed. This holds of every engine at all times:
    /// no function asks for it, and every function keeps it.
    #[verifier::type_invariant]
    pub open spec fn wf(&self) -> bool {
        well_formed(self@)
    }

    /// The seconds that the engine waits for a request before it looks at
    /// the files again.
    pub closed spec fn timeout_secs(&self) -> u64 {
        self.timeout
    }

    /// The end of the event queue that the engine sends its notifications
    /// to.
    pub closed spec fn sender(&self) -> crossbeam::channel::Sender<FileEvent<T>> {
        self.sender
    }

    /// The end of the request queue that the engine takes its requests
    /// from.
    pub closed spec fn commands(&self) -> crossbeam::channel::Receiver<WatchTask<T>> {
        self.commands
    }

    /// An engine that watches nothing yet. It takes its requests from
    /// `commands`, sends its notifications to `sender`, and waits
    /// [`DEFAULT_TIMEOUT_SECS`] for a request before it looks at the files
    /// again.
    pub fn new(
        sender: crossbeam::channel::Sender<FileEvent<T>>,
        commands: crossbeam::channel::Receiver<WatchTask<T>>,
    ) -> (inner: Self)
        ensures
            inner.wf(),
            inner@ == at_start::<T>(),
            inner.timeout_secs() == DEFAULT_TIMEOUT_SECS,
            inner.sender() == sender,
            inner.commands() == commands,
    {
        let inner = FileWatcherInner {
            sender,
            commands,
            tasks: WatchTable::new(),
            timeout: DEFAULT_TIMEOUT_SECS,
            stage: Stage::Wait,
            to_remove: Vec::new(),
        };
        assert(inner@.marked =~= Seq::empty());
        inner
    }

    /// The watch table.
    pub fn table(&self) -> (table: &WatchTable<T>)
        ensures
            table@ == self@.tasks,
            table.wf(),
    {
        proof {
            use_type_invariant(self);
        }
        &self.tasks
    }

    /// What the engine needs next.
    pub fn action(&self) -> (action: Action)
        ensures
            action@ == wanted(self@),
    {
        proof {
            use_type_invariant(self);
        }
        match &self.stage {
            Stage::Wait => Action::Wait,
            Stage::Drain => Action::Drain,
            Stage::Register { opaque, tp, path, result, seen } => {
                if self.tasks.contains(path) || seen.is_some() {
                    Action::Read(path.clone(), *tp)
                } else {
                    Action::Stat(path.clone())
                }
            },
            Stage::Poll { cursor, seen } => {
                let watch = self.tasks.at(*cursor);
                if seen.is_some() {
                    Action::Read(watch.path.clone(), watch.tp)
                } else {
                    Action::Stat(watch.path.clone())
                }
            },
            Stage::Stopped => Action::Stop,
        }
    }

    /// One step: the engine is told `event` and says what it needs next.
    ///
    /// The step touches no channel. What it has to say to subscribers it
    /// hands out with the action.
    pub fn step(&mut self, event: Event<T>) -> (out: Output<T>)
        ensures
            final(self).wf(),
            final(self)@ == next(old(self)@, event@),
            final(self).timeout_secs() == old(self).timeout_secs(),
            final(self).sender() == old(self).sender(),
            final(self).commands() == old(self).commands(),
            out.action@ == wanted(final(self)@),
            match initial_of(old(self)@, event@) {
                Some(initial) => out.initial is Some && out.initial->0@ == initial,
                None => out.initial is None,
            },
            match notice_of(old(self)@, event@) {
                Some(notice) => fans_out(notice.0, notice.1, out.events@),
                None => out.events@.len() == 0,
            },
    {
        proof {
            use_type_invariant(&*self);
        }
        let mut stage = Stage::Stopped;
        core::mem::swap(&mut self.stage, &mut stage);
        let mut events: Vec<FileEvent<T>> = Vec::new();
        let mut initial: Option<Initial> = None;
        match stage {
            Stage::Wait => match event {
                Event::Command(task) => {
                    self.task(task);
                },
                Event::Timeout => {
                    self.check_begin();
                },
                Event::Closed => {
                    self.stage = Stage::Stopped;
                },
                _ => {
                    self.stage = Stage::Wait;
                },
            },
            Stage::Drain => match event {
                Event::Command(task) => {
                    self.task(task);
                },
                Event::Empty => {
                    self.check_begin();
                },
                Event::Closed => {
                    self.check_begin();
                },
                _ => {
                    self.stage = Stage::Drain;
                },
            },
            Stage::Register { opaque, tp, path, result, seen } => match event {
                Event::Answer(answer) => {
                    initial = self.init(opaque, tp, path, result, seen, answer);
                },
                _ => {
                    self.stage = Stage::Register { opaque, tp, path, result, seen };
                },
            },
            Stage::Poll { cursor, seen } => match event {
                Event::Answer(answer) => {
                    events = self.check(cursor, seen, answer);
                },
                _ => {
                    self.stage = Stage::Poll { cursor, seen };
                },
            },
            Stage::Stopped => {
                self.stage = Stage::Stopped;
            },
        }
        let action = self.action();
        Output { action, events, initial }
    }

    /// Runs the engine up to its next need.
    ///
    /// Where the engine waits for a request it takes one from its queue, as
    /// the stage says: waiting up to the timeout, or not at all. Where it
    /// waits for the file system it takes `answer`; without one nothing
    /// happens. Then it makes the step, puts the initial result of a settled
    /// subscription into its slot, and sends the notifications.
    pub fn resume(&mut self, answer: Option<Answer>) -> (action: Action)
        ensures
            final(self).wf(),
            final(self).timeout_secs() == old(self).timeout_secs(),
            final(self).sender() == old(self).sender(),
            final(self).commands() == old(self).commands(),
            action@ == wanted(final(self)@),
            match old(self)@.stage {
                StageView::Wait => exists|e: EventView<T>|
                    !(e is Answer) && !(e is Empty) && final(self)@ == #[trigger] next(
                        old(self)@,
                        e,
                    ),
                StageView::Drain => exists|e: EventView<T>|
                    !(e is Answer) && !(e is Timeout) && final(self)@ == #[trigger] next(
                        old(self)@,
                        e,
                    ),
                StageView::Stopped => final(self)@ == old(self)@,
                _ => final(self)@ == match answer {
                    Some(a) => next(old(self)@, EventView::Answer(a@)),
                    None => old(self)@,
                },
            },
    {
        proof {
            use_type_invariant(&*self);
        }
        let event = match &self.stage {
            Stage::Wait => incoming(
                recv_timeout(&self.commands, std::time::Duration::from_secs(self.timeout)),
            ),
            Stage::Drain => incoming(try_recv(&self.commands)),
            Stage::Stopped => {
                return Action::Stop;
            },
            _ => match answer {
                Some(a) => Event::Answer(a),
                None => {
                    return self.action();
                },
            },
        };
        let out = self.step(event);
        self.deliver(out.events, out.initial);
        out.action
    }

    /// Puts an initial result into its slot and sends the notifications, in
    /// their order. A slot or a queue that nobody listens to any more is
    /// passed over.
    fn deliver(&self, events: Vec<FileEvent<T>>, initial: Option<Initial>) {
        match initial {
            Some(initial) => {
                fulfil(initial.result, initial.content);
            },
            None => {},
        }
        for event in events {
            send(&self.sender, event);
        }
    }

    /// Takes up a request.
    fn task(&mut self, task: WatchTask<T>)
        requires
            old(self).stage@ is Stopped,
        ensures
            final(self).wf(),
            final(self)@ == accepted(old(self).tasks@, old(self)@.marked, task@),
            final(self).timeout == old(self).timeout,
            final(self).sender == old(self).sender,
            final(self).commands == old(self).commands,
    {
        proof {
            use_type_invariant(&*self);
        }
        match task {
            WatchTask::Watch { opaque, tp, path, result } => {
                self.stage = Stage::Register { opaque, tp, path, result, seen: None };
            },
            WatchTask::Unwatch(path) => {
                let mut tasks = self.take_tasks();
                tasks.remove(&path);
                self.tasks = tasks;
                self.stage = Stage::Drain;
            },
        }
    }

    /// Tells a pending subscription of the file, and settles it if the
    /// answer is the last that it needs.
    fn init(
        &mut self,
        opaque: T,
        tp: FileType,
        path: String,
        result: oneshot::Sender<FileContent>,
        seen: Option<Timestamp>,
        answer: Answer,
    ) -> (initial: Option<Initial>)
        requires
            old(self).stage@ is Stopped,
        ensures
            final(self).wf(),
            final(self)@ == registered(
                old(self).tasks@,
                old(self)@.marked,
                opaque,
                tp,
                path@,
                result,
                seen,
                answer@,
            ),
            final(self).timeout == old(self).timeout,
            final(self).sender == old(self).sender,
            final(self).commands == old(self).commands,
            match settled(old(self).tasks@, path@, seen, answer@) {
                Some(content) => initial is Some && initial->0@ == (InitialView { result, content }),
                None => initial is None,
            },
    {
        proof {
            use_type_invariant(&*self);
        }
        match self.tasks.find(&path) {
            Some(i) => match answer {
                Answer::Read(read) => {
                    let mut tasks = self.take_tasks();
                    tasks.subscribe(i, opaque);
                    self.tasks = tasks;
                    self.stage = Stage::Drain;
                    Some(Initial { result, content: read.into_content() })
                },
                Answer::Stat(_) => {
                    self.stage = Stage::Register { opaque, tp, path, result, seen };
                    None
                },
            },
            None => match seen {
                None => match answer {
                    Answer::Stat(Ok(modified)) => {
                        self.stage = Stage::Register {
                            opaque,
                            tp,
                            path,
                            result,
                            seen: Some(modified),
                        };
                        None
                    },
                    Answer::Stat(Err(message)) => {
                        self.stage = Stage::Drain;
                        Some(Initial { result, content: FileContent::Error(message) })
                    },
                    Answer::Read(_) => {
                        self.stage = Stage::Register { opaque, tp, path, result, seen };
                        None
                    },
                },
                Some(modified) => match answer {
                    Answer::Read(read) => {
                        match &read {
                            ReadOutcome::Text(_) => {
                                let mut tasks = self.take_tasks();
                                tasks.insert(path, opaque, tp, modified);
                                self.tasks = tasks;
                            },
                            _ => {},
                        }
                        self.stage = Stage::Drain;
                        Some(Initial { result, content: read.into_content() })
                    },
                    Answer::Stat(_) => {
                        self.stage = Stage::Register { opaque, tp, path, result, seen };
                        None
                    },
                },
            },
        }
    }

    /// Starts a pass over the table.
    fn check_begin(&mut self)
        requires
            old(self).stage@ is Stopped,
        ensures
            final(self).wf(),
            final(self)@ == proceed(old(self).tasks@, Seq::empty(), 0),
            final(self).timeout == old(self).timeout,
            final(self).sender == old(self).sender,
            final(self).commands == old(self).commands,
    {
        proof {
            use_type_invariant(&*self);
        }
        self.to_remove = Vec::new();
        assert(self.to_remove@.map_values(|p: String| p@) =~= Seq::empty());
        self.check_next(0);
    }

    /// Goes on with the pass at index `cursor`, or ends it there.
    fn check_next(&mut self, cursor: usize)
        requires
            old(self).stage@ is Stopped,
        ensures
            final(self).wf(),
            final(self)@ == proceed(old(self).tasks@, old(self)@.marked, cursor as int),
            final(self).timeout == old(self).timeout,
            final(self).sender == old(self).sender,
            final(self).commands == old(self).commands,
    {
        proof {
            use_type_invariant(&*self);
        }
        if cursor < self.tasks.len() {
            self.stage = Stage::Poll { cursor, seen: None };
        } else {
            let mut tasks = self.take_tasks();
            tasks.remove_all(&self.to_remove);
            self.tasks = tasks;
            self.to_remove = Vec::new();
            assert(self.to_remove@.map_values(|p: String| p@) =~= Seq::empty());
            self.stage = Stage::Wait;
        }
    }

    /// Tells the pass of the file of the entry at `cursor`.
    fn check(&mut self, cursor: usize, seen: Option<Timestamp>, answer: Answer) -> (events: Vec<
        FileEvent<T>,
    >)
        requires
            old(self).stage@ is Stopped,
            cursor < old(self).tasks@.len(),
            seen matches Some(modified) ==> modified.nanos > old(self).tasks@[cursor as
                int].modified.nanos,
        ensures
            final(self).wf(),
            final(self)@ == polled(
                old(self).tasks@,
                old(self)@.marked,
                cursor as int,
                seen,
                answer@,
            ),
            final(self).timeout == old(self).timeout,
            final(self).sender == old(self).sender,
            final(self).commands == old(self).commands,
            match noticed(old(self).tasks@, cursor as int, seen, answer@) {
                Some(notice) => fans_out(notice.0, notice.1, events@),
                None => events@.len() == 0,
            },
    {
        proof {
            use_type_invariant(&*self);
            self.tasks.lemma_len_fits();
        }
        match seen {
            None => match answer {
                Answer::Stat(Err(_)) => {
                    self.mark(cursor);
                    self.check_next(cursor + 1);
                    Vec::new()
                },
                Answer::Stat(Ok(modified)) => {
                    if modified.is_after(self.tasks.at(cursor).modified) {
                        self.stage = Stage::Poll { cursor, seen: Some(modified) };
                    } else {
                        self.check_next(cursor + 1);
                    }
                    Vec::new()
                },
                Answer::Read(_) => {
                    self.stage = Stage::Poll { cursor, seen };
                    Vec::new()
                },
            },
            Some(modified) => match answer {
                Answer::Read(ReadOutcome::OpenFailed(_)) => {
                    self.mark(cursor);
                    self.check_next(cursor + 1);
                    Vec::new()
                },
                Answer::Read(ReadOutcome::ReadFailed(message)) => {
                    let content = FileContent::Error(message);
                    let events = fan_out(&self.tasks.at(cursor).opaque, &content);
                    self.check_next(cursor + 1);
                    events
                },
                Answer::Read(ReadOutcome::Text(text)) => {
                    let content = FileContent::Text(text);
                    let events = fan_out(&self.tasks.at(cursor).opaque, &content);
                    let mut tasks = self.take_tasks();
                    tasks.touch(cursor, modified);
                    self.tasks = tasks;
                    self.check_next(cursor + 1);
                    events
                },
                Answer::Stat(_) => {
                    self.stage = Stage::Poll { cursor, seen };
                    Vec::new()
                },
            },
        }
    }

    /// Takes the table out of the engine, to be changed and put back, and
    /// leaves an empty one in its place.
    fn take_tasks(&mut self) -> (tasks: WatchTable<T>)
        requires
            old(self).stage@ is Stopped,
        ensures
            tasks == old(self).tasks,
            final(self).tasks@ == Seq::<WatchView<T>>::empty(),
            final(self).stage == old(self).stage,
            final(self).timeout == old(self).timeout,
            final(self).sender == old(self).sender,
            final(self).commands == old(self).commands,
            final(self).to_remove == old(self).to_remove,
    {
        proof {
            use_type_invariant(&*self);
        }
        let mut tasks = WatchTable::new();
        core::mem::swap(&mut tasks, &mut self.tasks);
        tasks
    }

    /// Marks the entry at `cursor` for eviction.
    fn mark(&mut self, cursor: usize)
        requires
            cursor < old(self).tasks@.len(),
        ensures
            final(self).tasks == old(self).tasks,
            final(self).stage == old(self).stage,
            final(self).timeout == old(self).timeout,
            final(self).sender == old(self).sender,
            final(self).commands == old(self).commands,
            final(self)@.marked == old(self)@.marked.push(old(self).tasks@[cursor as int].path),
    {
        proof {
            use_type_invariant(&*self);
        }
        let mut marks = Vec::new();
        core::mem::swap(&mut marks, &mut self.to_remove);
        marks.push(self.tasks.at(cursor).path.clone());
        assert(marks@.map_values(|p: String| p@) =~= old(self)@.marked.push(
            old(self).tasks@[cursor as int].path,
        ));
        self.to_remove = marks;
    }
}

} // verus!
