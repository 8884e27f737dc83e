use file_watcher::channel::Received;
use file_watcher::engine::{fan_out, incoming};
use file_watcher::path::{compare, PathOrder};
use file_watcher::watcher::{outcome, watch_request};
use file_watcher::{
    Action, Answer, Event, FileContent, FileEvent, FileType, FileWatcher, ReadOutcome, Timestamp,
    TryError, WatchTable, WatchTask,
};

fn s(text: &str) -> String {
    text.to_string()
}

#[test]
fn paths_are_ordered_by_their_bytes() {
    assert_eq!(compare(&s("a"), &s("b")), PathOrder::Before);
    assert_eq!(compare(&s("b"), &s("a")), PathOrder::After);
    assert_eq!(compare(&s("a"), &s("a")), PathOrder::Same);
    assert_eq!(compare(&s(""), &s("")), PathOrder::Same);
    assert_eq!(compare(&s(""), &s("a")), PathOrder::Before);
    assert_eq!(compare(&s("a"), &s("")), PathOrder::After);
    // A proper prefix comes first.
    assert_eq!(compare(&s("a.txt"), &s("a.txt.bak")), PathOrder::Before);
    assert_eq!(compare(&s("dir/file"), &s("dir")), PathOrder::After);
    // The first difference decides, whatever follows.
    assert_eq!(compare(&s("a/zzz"), &s("b")), PathOrder::Before);
    assert_eq!(compare(&s("a-b"), &s("a/b")), PathOrder::Before);
    assert_eq!(compare(&s("B"), &s("a")), PathOrder::Before);
    // Beyond ASCII the order is that of the encoded bytes.
    assert_eq!(compare(&s("z"), &s("\u{e9}")), PathOrder::Before);
    assert_eq!(compare(&s("\u{e9}"), &s("\u{4e2d}")), PathOrder::Before);
    assert_eq!(compare(&s("\u{10348}"), &s("\u{ffff}")), PathOrder::After);
}

#[test]
fn the_order_of_paths_is_that_of_strings() {
    let names = ["", "a", "a.txt", "a/b", "a-b", "b", "B", "\u{e9}", "zz", "\u{4e2d}\u{6587}"];
    for x in names {
        for y in names {
            let expected = match x.cmp(y) {
                std::cmp::Ordering::Less => PathOrder::Before,
                std::cmp::Ordering::Equal => PathOrder::Same,
                std::cmp::Ordering::Greater => PathOrder::After,
            };
            assert_eq!(compare(&s(x), &s(y)), expected);
        }
    }
}

#[test]
fn a_time_is_after_an_earlier_one_only() {
    let early = Timestamp { nanos: -5 };
    let late = Timestamp { nanos: 1_700_000_000_000_000_000 };
    assert!(late.is_after(early));
    assert!(!early.is_after(late));
    assert!(!late.is_after(late));
    assert!(Timestamp { nanos: 0 }.is_after(early));
    assert!(Timestamp { nanos: i128::MAX }.is_after(Timestamp { nanos: i128::MIN }));
}

#[test]
fn a_read_becomes_text_or_an_error() {
    assert_eq!(ReadOutcome::Text(s("x")).into_content(), FileContent::Text(s("x")));
    assert_eq!(ReadOutcome::Text(s("")).into_content(), FileContent::Text(s("")));
    assert_eq!(ReadOutcome::OpenFailed(s("denied")).into_content(), FileContent::Error(s("denied")));
    assert_eq!(ReadOutcome::ReadFailed(s("not text")).into_content(), FileContent::Error(s("not text")));
}

#[test]
fn an_io_error_becomes_an_error_with_its_message() {
    let e = std::io::Error::new(std::io::ErrorKind::Other, "disk on fire");
    assert_eq!(FileContent::from(e), FileContent::Error(s("disk on fire")));
    let e = std::io::Error::from(std::io::ErrorKind::NotFound);
    let expected = std::io::Error::from(std::io::ErrorKind::NotFound).to_string();
    assert_eq!(FileContent::from(e), FileContent::Error(expected));
}

#[test]
fn a_clone_of_a_content_is_equal_to_it() {
    for content in [FileContent::Text(s("x")), FileContent::Remove, FileContent::Error(s("e"))] {
        assert_eq!(content.clone(), content);
    }
}

#[test]
fn what_was_received_becomes_an_event_or_the_reason_for_none() {
    assert_eq!(outcome(Received::Message(5)), Ok(5));
    assert_eq!(outcome::<u8>(Received::Empty), Err(TryError::Empty));
    assert_eq!(outcome::<u8>(Received::TimedOut), Err(TryError::Empty));
    assert_eq!(outcome::<u8>(Received::Disconnected), Err(TryError::Closed));
}

#[test]
fn what_was_received_on_the_request_queue_becomes_an_event() {
    assert!(matches!(incoming::<u8>(Received::Empty), Event::Empty));
    assert!(matches!(incoming::<u8>(Received::TimedOut), Event::Timeout));
    assert!(matches!(incoming::<u8>(Received::Disconnected), Event::Closed));
    let unwatch = incoming::<u8>(Received::Message(WatchTask::Unwatch(s("a"))));
    assert!(matches!(unwatch, Event::Command(WatchTask::Unwatch(path)) if path == "a"));
    let (sink, _result) = oneshot::channel();
    let watch = WatchTask::Watch { opaque: 9u8, tp: FileType::Text, path: s("b"), result: sink };
    match incoming(Received::Message(watch)) {
        Event::Command(WatchTask::Watch { opaque, tp, path, .. }) => {
            assert_eq!(opaque, 9);
            assert_eq!(tp, FileType::Text);
            assert_eq!(path, "b");
        }
        _ => panic!("a watch request must arrive as a command"),
    }
}

#[test]
fn every_subscriber_gets_an_event_of_its_own() {
    let subscribers = vec![s("one"), s("two"), s("one")];
    let content = FileContent::Text(s("hello"));
    let events = fan_out(&subscribers, &content);
    assert_eq!(events.len(), 3);
    for (event, subscriber) in events.iter().zip(subscribers.iter()) {
        assert_eq!(&event.opaque, subscriber);
        assert_eq!(event.content, content);
    }
    let none: Vec<FileEvent<u8>> = fan_out(&Vec::new(), &content);
    assert!(none.is_empty());
}

#[test]
fn a_new_table_is_empty() {
    let table = WatchTable::<u8>::new();
    assert_eq!(table.len(), 0);
    assert_eq!(table.find(&s("a")), None);
    assert!(!table.contains(&s("a")));
    assert!(table.get(0).is_none());
    assert!(table.lookup(&s("a")).is_none());
}

#[test]
fn a_new_engine_waits_for_a_request() {
    let (_handle, inner) = FileWatcher::<u8>::new();
    assert_eq!(inner.action(), Action::Wait);
    assert_eq!(inner.table().len(), 0);
}

#[test]
fn a_step_hands_out_the_initial_result_and_touches_no_channel() {
    let (handle, mut inner) = FileWatcher::<u8>::new();
    let (sink, result) = oneshot::channel();
    let watch = WatchTask::Watch { opaque: 3u8, tp: FileType::Text, path: s("a"), result: sink };
    let out = inner.step(Event::Command(watch));
    assert_eq!(out.action, Action::Stat(s("a")));
    assert!(out.events.is_empty() && out.initial.is_none());
    let out = inner.step(Event::Answer(Answer::Stat(Ok(Timestamp { nanos: 1 }))));
    assert_eq!(out.action, Action::Read(s("a"), FileType::Text));
    assert!(out.events.is_empty() && out.initial.is_none());
    let out = inner.step(Event::Answer(Answer::Read(ReadOutcome::Text(s("x")))));
    assert_eq!(out.action, Action::Drain);
    assert!(out.events.is_empty());
    let initial = out.initial.unwrap();
    assert_eq!(initial.content, FileContent::Text(s("x")));
    // The step did not put the result into the slot.
    assert!(result.try_recv().is_err());
    assert!(initial.result.send(initial.content).is_ok());
    assert_eq!(result.try_recv().unwrap(), FileContent::Text(s("x")));

    let out = inner.step(Event::Empty);
    assert_eq!(out.action, Action::Stat(s("a")));
    let out = inner.step(Event::Answer(Answer::Stat(Ok(Timestamp { nanos: 2 }))));
    assert_eq!(out.action, Action::Read(s("a"), FileType::Text));
    let out = inner.step(Event::Answer(Answer::Read(ReadOutcome::Text(s("y")))));
    assert_eq!(out.action, Action::Wait);
    assert!(out.initial.is_none());
    assert_eq!(out.events.len(), 1);
    assert_eq!(out.events[0].opaque, 3);
    assert_eq!(out.events[0].content, FileContent::Text(s("y")));
    // The step did not send the event.
    assert!(matches!(handle.try_recv(None), Err(TryError::Empty)));
}

#[test]
fn an_event_that_the_stage_does_not_wait_for_changes_nothing() {
    let (_handle, mut inner) = FileWatcher::<u8>::new();
    // Waiting: an empty queue and answers of the file system are not awaited.
    assert_eq!(inner.step(Event::Empty).action, Action::Wait);
    let stat = Event::Answer(Answer::Stat(Ok(Timestamp { nanos: 1 })));
    assert_eq!(inner.step(stat).action, Action::Wait);
    // Draining: a timeout is not awaited.
    assert_eq!(inner.step(Event::Command(WatchTask::Unwatch(s("a")))).action, Action::Drain);
    assert_eq!(inner.step(Event::Timeout).action, Action::Drain);
    // A pending subscription: no request is taken up.
    let (sink, _result) = oneshot::channel();
    let watch = WatchTask::Watch { opaque: 3u8, tp: FileType::Text, path: s("a"), result: sink };
    assert_eq!(inner.step(Event::Command(watch)).action, Action::Stat(s("a")));
    assert_eq!(inner.step(Event::Command(WatchTask::Unwatch(s("a")))).action, Action::Stat(s("a")));
    assert_eq!(inner.step(Event::Timeout).action, Action::Stat(s("a")));
    assert_eq!(inner.step(Event::Closed).action, Action::Stat(s("a")));
    assert_eq!(inner.table().len(), 0);
}

#[test]
fn a_stopped_engine_stays_stopped() {
    let (_handle, mut inner) = FileWatcher::<u8>::new();
    assert_eq!(inner.step(Event::Closed).action, Action::Stop);
    assert_eq!(inner.step(Event::Timeout).action, Action::Stop);
    assert_eq!(inner.step(Event::Command(WatchTask::Unwatch(s("a")))).action, Action::Stop);
    assert_eq!(inner.action(), Action::Stop);
}

#[test]
fn the_table_holds_the_paths_that_were_registered_and_not_removed() {
    let (handle, mut inner) = FileWatcher::<u8>::new();
    let watched = |inner: &file_watcher::FileWatcherInner<u8>| -> Vec<String> {
        let table = inner.table();
        (0..table.len()).map(|i| table.get(i).unwrap().path.clone()).collect()
    };
    for (name, ok) in [("c", true), ("a", true), ("x", false), ("b", true)] {
        let _result = handle.add_watch(FileType::Text, s(name), 1);
        assert_eq!(inner.resume(None), Action::Stat(s(name)));
        let answer = if ok {
            Answer::Stat(Ok(Timestamp { nanos: 0 }))
        } else {
            Answer::Stat(Err(s("missing")))
        };
        if ok {
            assert_eq!(inner.resume(Some(answer)), Action::Read(s(name), FileType::Text));
            let read = Answer::Read(ReadOutcome::Text(s("")));
            assert_eq!(inner.resume(Some(read)), Action::Drain);
        } else {
            assert_eq!(inner.resume(Some(answer)), Action::Drain);
        }
    }
    assert_eq!(watched(&inner), vec![s("a"), s("b"), s("c")]);
    assert_eq!(inner.table().find(&s("b")), Some(1));
    assert_eq!(inner.table().find(&s("x")), None);
    assert_eq!(inner.table().get(2).unwrap().path, "c");
    assert!(inner.table().get(3).is_none());
    assert_eq!(inner.table().lookup(&s("c")).unwrap().opaque, vec![1]);
    assert_eq!(inner.table().lookup(&s("c")).unwrap().tp, FileType::Text);
    handle.remove_watch(s("b"));
    assert_eq!(inner.resume(None), Action::Drain);
    assert_eq!(watched(&inner), vec![s("a"), s("c")]);
    // The pass finds a gone and c unchanged.
    assert_eq!(inner.resume(None), Action::Stat(s("a")));
    assert_eq!(inner.resume(Some(Answer::Stat(Err(s("gone"))))), Action::Stat(s("c")));
    assert_eq!(watched(&inner), vec![s("a"), s("c")]);
    assert_eq!(inner.resume(Some(Answer::Stat(Ok(Timestamp { nanos: 0 })))), Action::Wait);
    assert_eq!(watched(&inner), vec![s("c")]);
    assert!(matches!(handle.try_recv(None), Err(TryError::Empty)));
}

#[test]
fn a_watch_request_carries_the_sending_end_of_the_slot() {
    let (task, result) = watch_request(9u8, FileType::Text, s("dir/a"), oneshot::channel());
    assert!(result.try_recv().is_err());
    match task {
        WatchTask::Watch { opaque, tp, path, result: sink } => {
            assert_eq!(opaque, 9);
            assert_eq!(tp, FileType::Text);
            assert_eq!(path, "dir/a");
            assert!(sink.send(FileContent::Text(s("x"))).is_ok());
        }
        WatchTask::Unwatch(_) => panic!("a watch request must be made"),
    }
    assert_eq!(result.try_recv().unwrap(), FileContent::Text(s("x")));
}

#[test]
fn a_request_that_was_received_arrives_with_its_own_slot() {
    let (sink, result) = oneshot::channel();
    let (other, unused) = oneshot::channel::<FileContent>();
    let watch = WatchTask::Watch { opaque: 1u8, tp: FileType::Text, path: s("a"), result: sink };
    match incoming(Received::Message(watch)) {
        Event::Command(WatchTask::Watch { result: sink, .. }) => {
            assert!(sink.send(FileContent::Remove).is_ok());
        }
        _ => panic!("a watch request must arrive as a command"),
    }
    assert_eq!(result.try_recv().unwrap(), FileContent::Remove);
    drop(other);
    assert!(unused.try_recv().is_err());
}

#[test]
fn each_of_two_pending_requests_is_answered_in_its_own_slot() {
    let (_handle, mut inner) = FileWatcher::<u8>::new();
    let (first_sink, first) = oneshot::channel();
    let (second_sink, second) = oneshot::channel();
    let watch = |opaque: u8, path: &str, result| WatchTask::Watch {
        opaque,
        tp: FileType::Text,
        path: s(path),
        result,
    };
    inner.step(Event::Command(watch(1, "a", first_sink)));
    let out = inner.step(Event::Answer(Answer::Stat(Err(s("missing")))));
    let initial = out.initial.unwrap();
    assert!(initial.result.send(initial.content).is_ok());
    assert_eq!(first.try_recv().unwrap(), FileContent::Error(s("missing")));
    assert!(second.try_recv().is_err());

    inner.step(Event::Command(watch(2, "b", second_sink)));
    inner.step(Event::Answer(Answer::Stat(Ok(Timestamp { nanos: 7 }))));
    let out = inner.step(Event::Answer(Answer::Read(ReadOutcome::Text(s("")))));
    let initial = out.initial.unwrap();
    assert!(initial.result.send(initial.content).is_ok());
    // An empty file is content, not an error.
    assert_eq!(second.try_recv().unwrap(), FileContent::Text(s("")));
    assert!(first.try_recv().is_err());
    assert_eq!(inner.table().lookup(&s("b")).unwrap().modified, Timestamp { nanos: 7 });
    assert!(!inner.table().contains(&s("a")));
}

#[test]
fn a_stored_time_moves_on_only_with_a_read_that_succeeds() {
    let (handle, mut inner) = FileWatcher::<u8>::new();
    let _result = handle.add_watch(FileType::Text, "a", 1);
    assert_eq!(inner.resume(None), Action::Stat(s("a")));
    let stat = |nanos: i128| Some(Answer::Stat(Ok(Timestamp { nanos })));
    assert_eq!(inner.resume(stat(10)), Action::Read(s("a"), FileType::Text));
    assert_eq!(inner.resume(Some(Answer::Read(ReadOutcome::Text(s("x"))))), Action::Drain);
    let stored = |inner: &file_watcher::FileWatcherInner<u8>| {
        inner.table().lookup(&s("a")).unwrap().modified.nanos
    };
    assert_eq!(stored(&inner), 10);
    // An earlier time and the same time are not read.
    assert_eq!(inner.resume(None), Action::Stat(s("a")));
    assert_eq!(inner.resume(stat(5)), Action::Wait);
    assert_eq!(stored(&inner), 10);
    drop(handle);
    // A later time whose read fails leaves the stored time; the next pass
    // reads again.
    assert_eq!(inner.step(Event::Timeout).action, Action::Stat(s("a")));
    let out = inner.step(Event::Answer(Answer::Stat(Ok(Timestamp { nanos: 20 }))));
    assert_eq!(out.action, Action::Read(s("a"), FileType::Text));
    let out = inner.step(Event::Answer(Answer::Read(ReadOutcome::ReadFailed(s("bad")))));
    assert_eq!(out.action, Action::Wait);
    assert_eq!(out.events.len(), 1);
    assert_eq!(stored(&inner), 10);
    assert_eq!(inner.step(Event::Timeout).action, Action::Stat(s("a")));
    let out = inner.step(Event::Answer(Answer::Stat(Ok(Timestamp { nanos: 20 }))));
    assert_eq!(out.action, Action::Read(s("a"), FileType::Text));
    let out = inner.step(Event::Answer(Answer::Read(ReadOutcome::Text(s("y")))));
    assert_eq!(out.action, Action::Wait);
    assert_eq!(stored(&inner), 20);
}
