//! What holds of every run of the engine.

use crate::content::{ContentView, FileContent, FileEvent, FileType};
use crate::engine::{
    accepted, at_start, fans_out, initial_of, next, notice_of, proceed, settled, well_formed,
    EngineView, InitialView, StageView,
};
use crate::protocol::{content_of, AnswerView, EventView, ReadView, TaskView};
use crate::table::{
    lemma_position_unique, lemma_update_keeps_paths, lemma_with_watch, lemma_without,
    entry, lemma_without_all, paths, position, sorted, watches, with_modified, with_subscriber,
    with_watch, Timestamp, WatchView,
};
use vstd::prelude::*;

verus! {

/// The state that the events lead to from the state `m`, taken in their
/// order.
pub open spec fn run<T>(m: EngineView<T>, events: Seq<EventView<T>>) -> EngineView<T>
    decreases events.len(),
{
    if events.len() == 0 {
        m
    } else {
        next(run(m, events.drop_last()), events.last())
    }
}

/// The path whose registration the step completes with success: the
/// subscriber is handed the text of the file.
pub open spec fn registers<T>(m: EngineView<T>, e: EventView<T>) -> Option<Seq<char>> {
    match (m.stage, e) {
        (StageView::Register { path, seen, .. }, EventView::Answer(answer)) => match settled(
            m.tasks,
            path,
            seen,
            answer,
        ) {
            Some(ContentView::Text(_)) => Some(path),
            _ => None,
        },
        _ => None,
    }
}

/// The path that the step unwatches on request.
pub open spec fn unwatches<T>(m: EngineView<T>, e: EventView<T>) -> Option<Seq<char>> {
    match (m.stage, e) {
        (StageView::Wait, EventView::Command(TaskView::Unwatch(path))) => Some(path),
        (StageView::Drain, EventView::Command(TaskView::Unwatch(path))) => Some(path),
        _ => None,
    }
}

/// The path whose file the step finds gone: its modification time cannot be
/// had, or it cannot be opened.
pub open spec fn fails<T>(m: EngineView<T>, e: EventView<T>) -> Option<Seq<char>> {
    match (m.stage, e) {
        (StageView::Poll { cursor, seen: None }, EventView::Answer(AnswerView::Stat(Err(_)))) => Some(
            m.tasks[cursor].path,
        ),
        (
            StageView::Poll { cursor, seen: Some(_) },
            EventView::Answer(AnswerView::Read(ReadView::OpenFailed(_))),
        ) => Some(m.tasks[cursor].path),
        _ => None,
    }
}

/// The paths that the pass has found gone so far, this step included.
pub open spec fn marks<T>(m: EngineView<T>, e: EventView<T>) -> Seq<Seq<char>> {
    match fails(m, e) {
        Some(path) => m.marked.push(path),
        None => m.marked,
    }
}

/// The paths that the step evicts: where it ends a pass, those that the
/// pass has found gone.
pub open spec fn evicts<T>(m: EngineView<T>, e: EventView<T>) -> Set<Seq<char>> {
    if m.stage is Poll && !(next(m, e).stage is Poll) {
        marks(m, e).to_set()
    } else {
        Set::empty()
    }
}

/// The live paths after a step, given those before it: a path becomes live
/// when a registration of it succeeds, and stops being live when it is
/// unwatched or evicted.
pub open spec fn live_after<T>(live: Set<Seq<char>>, m: EngineView<T>, e: EventView<T>) -> Set<
    Seq<char>,
> {
    let registered = match registers(m, e) {
        Some(path) => live.insert(path),
        None => live,
    };
    let unwatched = match unwatches(m, e) {
        Some(path) => registered.remove(path),
        None => registered,
    };
    unwatched.difference(evicts(m, e))
}

/// The paths that are live after the events, for an engine that started
/// with nothing watched: those with a successful registration that have not
/// been unwatched or evicted since.
pub open spec fn live_paths<T>(events: Seq<EventView<T>>) -> Set<Seq<char>>
    decreases events.len(),
{
    if events.len() == 0 {
        Set::empty()
    } else {
        live_after(
            live_paths(events.drop_last()),
            run(at_start::<T>(), events.drop_last()),
            events.last(),
        )
    }
}

/// A step keeps the engine well formed: the table stays sorted, with one
/// entry for each path at most, whatever the event.
pub proof fn lemma_next_well_formed<T>(m: EngineView<T>, e: EventView<T>)
    requires
        well_formed(m),
    ensures
        well_formed(next(m, e)),
{
    lemma_next_paths(m, e);
}

/// Every run keeps the engine well formed.
pub proof fn lemma_run_well_formed<T>(m: EngineView<T>, events: Seq<EventView<T>>)
    requires
        well_formed(m),
    ensures
        well_formed(run(m, events)),
    decreases events.len(),
{
    if events.len() > 0 {
        lemma_run_well_formed(m, events.drop_last());
        lemma_next_well_formed(run(m, events.drop_last()), events.last());
    }
}

/// A step changes the set of watched paths as its event says: a successful
/// registration adds its path, an unwatch request takes its path out, the
/// end of a pass takes out the paths that the pass found gone, and nothing
/// else changes the set.
pub proof fn lemma_next_paths<T>(m: EngineView<T>, e: EventView<T>)
    requires
        well_formed(m),
    ensures
        well_formed(next(m, e)),
        paths(next(m, e).tasks) == live_after(paths(m.tasks), m, e),
{
    let n = next(m, e);
    let live = paths(m.tasks);
    match (m.stage, e) {
        (StageView::Wait, EventView::Command(TaskView::Unwatch(path))) => {
            lemma_without(m.tasks, path);
        },
        (StageView::Drain, EventView::Command(TaskView::Unwatch(path))) => {
            lemma_without(m.tasks, path);
        },
        (StageView::Wait, EventView::Timeout) => {
            lemma_pass_goes_on(m.tasks, Seq::empty(), 0);
        },
        (StageView::Drain, EventView::Empty) => {
            lemma_pass_goes_on(m.tasks, Seq::empty(), 0);
        },
        (StageView::Drain, EventView::Closed) => {
            lemma_pass_goes_on(m.tasks, Seq::empty(), 0);
        },
        (StageView::Register { opaque, tp, path, seen, .. }, EventView::Answer(answer)) => {
            if watches(m.tasks, path) {
                let i = position(m.tasks, path);
                lemma_update_keeps_paths(
                    m.tasks,
                    i,
                    WatchView { opaque: m.tasks[i].opaque.push(opaque), ..m.tasks[i] },
                );
                assert(live.insert(path) =~= live);
            } else if seen is Some {
                lemma_with_watch(
                    m.tasks,
                    WatchView { path, opaque: seq![opaque], tp, modified: seen->0 },
                );
            }
        },
        (StageView::Poll { cursor, seen }, EventView::Answer(answer)) => {
            let gone = marks(m, e);
            match (seen, answer) {
                (Some(modified), AnswerView::Read(ReadView::Text(_))) => {
                    lemma_update_keeps_paths(
                        m.tasks,
                        cursor,
                        WatchView { modified, ..m.tasks[cursor] },
                    );
                    lemma_pass_goes_on(with_modified(m.tasks, cursor, modified), gone, cursor + 1);
                },
                _ => {
                    lemma_pass_goes_on(m.tasks, gone, cursor + 1);
                },
            }
        },
        _ => {},
    }
    assert(paths(n.tasks) =~= live_after(live, m, e));
}

/// Whether a pass goes on or ends, the table stays sorted; only its end
/// changes the watched paths, by those that are marked.
pub proof fn lemma_pass_goes_on<T>(tasks: Seq<WatchView<T>>, marked: Seq<Seq<char>>, cursor: int)
    requires
        sorted(tasks),
        0 <= cursor,
    ensures
        well_formed(proceed(tasks, marked, cursor)),
        paths(proceed(tasks, marked, cursor).tasks) == if cursor < tasks.len() {
            paths(tasks)
        } else {
            paths(tasks).difference(marked.to_set())
        },
{
    lemma_without_all(tasks, marked);
}

/// The table holds the live paths, always: after any events, an engine that
/// started with nothing watched has an entry for a path if and only if the
/// path was registered with success and has not been unwatched or evicted
/// since.
pub proof fn lemma_table_holds_the_live_paths<T>(events: Seq<EventView<T>>)
    ensures
        well_formed(run(at_start::<T>(), events)),
        paths(run(at_start::<T>(), events).tasks) == live_paths(events),
    decreases events.len(),
{
    if events.len() == 0 {
        assert(paths(at_start::<T>().tasks) =~= Set::empty());
    } else {
        lemma_table_holds_the_live_paths(events.drop_last());
        lemma_next_paths(run(at_start::<T>(), events.drop_last()), events.last());
    }
}

/// The marks of a pass are the paths that it found gone: a pass begins
/// without marks, each step of it adds the path that it finds gone and no
/// other, and no marks are left when the pass is over.
pub proof fn lemma_marks_are_the_failures_of_the_pass<T>(m: EngineView<T>, e: EventView<T>)
    requires
        well_formed(m),
    ensures
        next(m, e).stage is Poll && m.stage is Poll ==> next(m, e).marked == marks(m, e),
        next(m, e).stage is Poll && !(m.stage is Poll) ==> next(m, e).marked == Seq::<
            Seq<char>,
        >::empty(),
        !(next(m, e).stage is Poll) && m.stage is Poll ==> next(m, e).marked == Seq::<
            Seq<char>,
        >::empty(),
{
}

/// Two subscribers of one file share one entry, and each gets an initial
/// result of its own.
///
/// An engine that is ready for requests and does not watch `path` is asked
/// to subscribe `a`; the file's modification time is had and the file reads
/// as `x`. Then it is asked to subscribe `b` to the same path, and the file
/// is read again, with whatever outcome. The first subscriber is handed
/// `x`, the second the outcome of the second read, each in the slot that
/// came with its own request. The table has one entry more than before,
/// that for `path`, and its subscribers are `a` and `b`, in this order.
pub proof fn lemma_two_subscribers_share_an_entry<T>(
    m: EngineView<T>,
    path: Seq<char>,
    a: T,
    first: oneshot::Sender<FileContent>,
    b: T,
    second: oneshot::Sender<FileContent>,
    tp: FileType,
    modified: Timestamp,
    x: Seq<char>,
    again: ReadView,
)
    requires
        well_formed(m),
        m.stage is Wait || m.stage is Drain,
        !watches(m.tasks, path),
    ensures
        ({
            let e1 = EventView::Command(TaskView::Watch { opaque: a, tp, path, result: first });
            let e2 = EventView::Answer(AnswerView::Stat(Ok(modified)));
            let e3 = EventView::Answer(AnswerView::Read(ReadView::Text(x)));
            let e4 = EventView::Command(TaskView::Watch { opaque: b, tp, path, result: second });
            let e5 = EventView::Answer(AnswerView::Read(again));
            let m1 = next(m, e1);
            let m2 = next(m1, e2);
            let m3 = next(m2, e3);
            let m4 = next(m3, e4);
            let m5 = next(m4, e5);
            &&& initial_of(m1, e2) is None
            &&& initial_of(m3, e4) is None
            &&& initial_of(m2, e3) == Some(
                InitialView { result: first, content: ContentView::Text(x) },
            )
            &&& initial_of(m4, e5) == Some(
                InitialView { result: second, content: content_of(again) },
            )
            &&& well_formed(m5)
            &&& m5.stage is Drain
            &&& m5.tasks.len() == m.tasks.len() + 1
            &&& paths(m5.tasks) == paths(m.tasks).insert(path)
            &&& watches(m5.tasks, path)
            &&& m5.tasks[position(m5.tasks, path)] == WatchView {
                path,
                opaque: seq![a, b],
                tp,
                modified,
            }
        }),
{
    let e1 = EventView::Command(TaskView::Watch { opaque: a, tp, path, result: first });
    let e2 = EventView::Answer(AnswerView::Stat(Ok(modified)));
    let e3 = EventView::Answer(AnswerView::Read(ReadView::Text(x)));
    let e4 = EventView::Command(TaskView::Watch { opaque: b, tp, path, result: second });
    let e5 = EventView::Answer(AnswerView::Read(again));
    let m1 = next(m, e1);
    let m2 = next(m1, e2);
    let m3 = next(m2, e3);
    let m4 = next(m3, e4);
    let m5 = next(m4, e5);
    let w = WatchView { path, opaque: seq![a], tp, modified };
    lemma_with_watch(m.tasks, w);
    assert(m3.tasks == with_watch(m.tasks, w));
    let k = crate::table::rank(m.tasks, path);
    assert(m3.tasks[k] == w);
    lemma_position_unique(m3.tasks, k);
    assert(watches(m3.tasks, path));
    lemma_update_keeps_paths(m3.tasks, k, WatchView { opaque: w.opaque.push(b), ..w });
    assert(m5.tasks == with_subscriber(m3.tasks, k, b));
    assert(m5.tasks[k].path == path);
    lemma_position_unique(m5.tasks, k);
    assert(seq![a].push(b) =~= seq![a, b]);
}

/// An update reaches every subscriber of the file.
///
/// Where the pass reads a newer file, the step notifies the subscribers of
/// its entry, all of them, of the text. Events that fan the text out to the
/// subscribers `a` and `b` are two: the first for a clone of `a`, the second
/// for a clone of `b`, each with the text.
pub proof fn lemma_update_reaches_every_subscriber<T: Clone>(
    m: EngineView<T>,
    text: Seq<char>,
    a: T,
    b: T,
    events: Seq<FileEvent<T>>,
)
    requires
        well_formed(m),
        m.stage matches StageView::Poll { cursor, seen } && seen is Some && m.tasks[cursor].opaque
            == seq![a, b],
        fans_out(seq![a, b], ContentView::Text(text), events),
    ensures
        notice_of(m, EventView::Answer(AnswerView::Read(ReadView::Text(text)))) == Some(
            (seq![a, b], ContentView::Text(text)),
        ),
        events.len() == 2,
        cloned(a, events[0].opaque),
        cloned(b, events[1].opaque),
        events[0].content@ == ContentView::Text(text),
        events[1].content@ == ContentView::Text(text),
{
}

/// Registering again changes nothing but the list of subscribers.
///
/// An engine that is ready for requests and watches `path` is asked to
/// subscribe `opaque` to it, a token that may be subscribed already. The
/// file is read and the subscriber is handed the outcome of that read, its
/// own, in the slot that came with this request. The table keeps its
/// entries and their order; the entry for `path` has the token once more at
/// the end of its subscribers, and is otherwise as it was.
pub proof fn lemma_registering_again<T>(
    m: EngineView<T>,
    path: Seq<char>,
    opaque: T,
    result: oneshot::Sender<FileContent>,
    tp: FileType,
    read: ReadView,
)
    requires
        well_formed(m),
        m.stage is Wait || m.stage is Drain,
        watches(m.tasks, path),
    ensures
        ({
            let e1 = EventView::Command(TaskView::Watch { opaque, tp, path, result });
            let e2 = EventView::Answer(AnswerView::Read(read));
            let m1 = next(m, e1);
            let m2 = next(m1, e2);
            let i = position(m.tasks, path);
            &&& initial_of(m1, e2) == Some(InitialView { result, content: content_of(read) })
            &&& well_formed(m2)
            &&& m2.stage is Drain
            &&& m2.tasks.len() == m.tasks.len()
            &&& paths(m2.tasks) == paths(m.tasks)
            &&& forall|j: int| 0 <= j < m.tasks.len() && j != i ==> m2.tasks[j] == m.tasks[j]
            &&& m2.tasks[i] == WatchView { opaque: m.tasks[i].opaque.push(opaque), ..m.tasks[i] }
        }),
{
    let i = position(m.tasks, path);
    lemma_update_keeps_paths(
        m.tasks,
        i,
        WatchView { opaque: m.tasks[i].opaque.push(opaque), ..m.tasks[i] },
    );
}

/// A request to subscribe is answered once, in its own slot, before the
/// engine takes up anything else.
///
/// While a subscription is pending, a step either leaves it pending, with
/// its token, path and slot as they are, and hands out no initial result;
/// or it settles it: the initial result goes to the slot that came with the
/// request, and the engine goes on to the queued requests. No step of a
/// pending subscription notifies anybody, and no step outside a pending
/// subscription hands out an initial result.
pub proof fn lemma_a_request_is_answered_once<T>(m: EngineView<T>, e: EventView<T>)
    requires
        well_formed(m),
    ensures
        m.stage matches StageView::Register { opaque, tp, path, result, .. } ==> {
            &&& notice_of(m, e) is None
            &&& match initial_of(m, e) {
                Some(initial) => initial.result == result && next(m, e).stage is Drain,
                None => {
                    &&& next(m, e).stage matches StageView::Register {
                        opaque: o,
                        tp: t,
                        path: p,
                        result: r,
                        ..
                    }
                    &&& o == opaque
                    &&& t == tp
                    &&& p == path
                    &&& r == result
                    &&& next(m, e).tasks == m.tasks
                },
            }
        },
        !(m.stage is Register) ==> initial_of(m, e) is None,
{
}

/// The modification time of an entry never goes back.
///
/// Whatever the event, an entry that the table still has after the step
/// says a time that is not earlier than before; and only the entry that a
/// pass has just read with success says a later one.
pub proof fn lemma_stored_time_never_goes_back<T>(
    m: EngineView<T>,
    e: EventView<T>,
    path: Seq<char>,
)
    requires
        well_formed(m),
        watches(m.tasks, path),
        watches(next(m, e).tasks, path),
    ensures
        entry(next(m, e).tasks, path).modified.nanos >= entry(m.tasks, path).modified.nanos,
        entry(next(m, e).tasks, path).path == path,
        entry(next(m, e).tasks, path).modified != entry(m.tasks, path).modified ==> {
            &&& m.stage matches StageView::Poll { cursor, seen: Some(modified) }
            &&& m.tasks[cursor].path == path
            &&& entry(next(m, e).tasks, path).modified == modified
            &&& e matches EventView::Answer(AnswerView::Read(ReadView::Text(_)))
        },
{
    lemma_position_unique(m.tasks, position(m.tasks, path));
    match (m.stage, e) {
        (StageView::Wait, EventView::Command(TaskView::Unwatch(gone))) => {
            lemma_without(m.tasks, gone);
        },
        (StageView::Drain, EventView::Command(TaskView::Unwatch(gone))) => {
            lemma_without(m.tasks, gone);
        },
        (StageView::Wait, EventView::Timeout) => {
            lemma_without_all(m.tasks, Seq::empty());
        },
        (StageView::Drain, EventView::Empty) => {
            lemma_without_all(m.tasks, Seq::empty());
        },
        (StageView::Drain, EventView::Closed) => {
            lemma_without_all(m.tasks, Seq::empty());
        },
        (StageView::Register { opaque, tp, path: joined, seen, .. }, EventView::Answer(answer)) => {
            if watches(m.tasks, joined) {
                let i = position(m.tasks, joined);
                lemma_update_keeps_paths(
                    m.tasks,
                    i,
                    WatchView { opaque: m.tasks[i].opaque.push(opaque), ..m.tasks[i] },
                );
            } else if seen is Some {
                lemma_with_watch(
                    m.tasks,
                    WatchView { path: joined, opaque: seq![opaque], tp, modified: seen->0 },
                );
            }
        },
        (StageView::Poll { cursor, seen }, EventView::Answer(answer)) => {
            let gone = marks(m, e);
            match (seen, answer) {
                (Some(modified), AnswerView::Read(ReadView::Text(_))) => {
                    lemma_position_unique(m.tasks, cursor);
                    lemma_update_keeps_paths(
                        m.tasks,
                        cursor,
                        WatchView { modified, ..m.tasks[cursor] },
                    );
                    lemma_without_all(with_modified(m.tasks, cursor, modified), gone);
                },
                _ => {
                    lemma_without_all(m.tasks, gone);
                },
            }
        },
        _ => {},
    }
}

/// A file that is gone leaves the table at the end of the pass, without a
/// word to its subscribers, and unwatching it afterwards changes nothing.
///
/// The first of the events finds the file of an entry gone. The other events
/// are the rest of the same pass, the last of them ending it. Then the first
/// step notifies nobody, the table at the end has no entry for the path,
/// and a request to unwatch the path leaves that table as it is.
pub proof fn lemma_gone_file_leaves_the_table<T>(m: EngineView<T>, events: Seq<EventView<T>>)
    requires
        well_formed(m),
        events.len() >= 1,
        fails(m, events[0]) is Some,
        forall|k: int| 1 <= k < events.len() ==> (#[trigger] run(m, events.take(k))).stage is Poll,
        !(run(m, events).stage is Poll),
    ensures
        notice_of(m, events[0]) is None,
        !watches(run(m, events).tasks, fails(m, events[0])->0),
        accepted(
            run(m, events).tasks,
            run(m, events).marked,
            TaskView::<T>::Unwatch(fails(m, events[0])->0),
        ).tasks == run(m, events).tasks,
{
    let path = fails(m, events[0])->0;
    lemma_mark_is_kept(m, events, events.len() as int);
    assert(events.take(events.len() as int) =~= events);
}

/// The state after the first `n` events of a pass that finds a file gone
/// with its first event: while the pass goes on the path stays marked; when
/// the pass is over the path is not watched.
proof fn lemma_mark_is_kept<T>(m: EngineView<T>, events: Seq<EventView<T>>, n: int)
    requires
        well_formed(m),
        1 <= n <= events.len(),
        fails(m, events[0]) is Some,
        forall|k: int| 1 <= k < n ==> (#[trigger] run(m, events.take(k))).stage is Poll,
    ensures
        well_formed(run(m, events.take(n))),
        run(m, events.take(n)).stage is Poll ==> run(m, events.take(n)).marked.contains(
            fails(m, events[0])->0,
        ),
        !(run(m, events.take(n)).stage is Poll) ==> !watches(
            run(m, events.take(n)).tasks,
            fails(m, events[0])->0,
        ),
    decreases n,
{
    let path = fails(m, events[0])->0;
    let before = run(m, events.take(n - 1));
    let e = events[n - 1];
    assert(events.take(n).drop_last() =~= events.take(n - 1));
    assert(events.take(n).last() == e);
    assert(run(m, events.take(n)) == next(before, e));
    if n == 1 {
        assert(events.take(0) =~= Seq::<EventView<T>>::empty());
        assert(before == m);
    } else {
        lemma_mark_is_kept(m, events, n - 1);
    }
    lemma_next_paths(before, e);
    let gone = marks(before, e);
    assert(gone.contains(path)) by {
        if n == 1 {
            assert(gone == m.marked.push(path));
            assert(gone[gone.len() - 1] == path);
        } else {
            let i = choose|i: int| 0 <= i < before.marked.len() && before.marked[i] == path;
            assert(gone[i] == path);
        }
    }
    lemma_marks_are_the_failures_of_the_pass(before, e);
    let after = next(before, e);
    if !(after.stage is Poll) {
        assert(before.stage is Poll);
        assert(gone.to_set().contains(path));
        assert(evicts(before, e) == gone.to_set());
        assert(!paths(after.tasks).contains(path));
    }
}

} // verus!
