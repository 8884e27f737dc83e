//! A polling file watcher with a verified core.
//!
//! Consumers register interest in files by path and are told of the initial
//! content, of later changes and of read errors. Changes are detected by
//! comparing modification times on a timer, never through notification
//! services of the operating system.
//!
//! The crate holds everything but the file system itself: the watch table,
//! the engine that decides what to look at next and what to tell whom, and
//! the channels that connect the engine to its callers. The engine is a state
//! machine. It names the file operation it needs as an [`Action`]; whoever
//! drives it performs the operation and hands the result back as an
//! [`Answer`].

pub mod channel;
pub mod content;
pub mod engine;
pub mod laws;
pub mod path;
pub mod protocol;
pub mod table;
pub mod watcher;

pub use content::{ContentView, FileContent, FileEvent, FileType, TryError};
pub use engine::{FileWatcherInner, Initial, Output};
pub use protocol::{Action, Answer, Event, ReadOutcome, WatchTask};
pub use table::{Timestamp, Watch, WatchTable};
pub use watcher::FileWatcher;
