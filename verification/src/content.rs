//! What the watcher tells its consumers.

use vstd::prelude::*;

verus! {

/// How a watched file is read.
#[derive(Clone, Copy, Debug, PartialEq, Eq, Structural)]
pub enum FileType {
    /// The file must hold valid UTF-8 text.
    Text,
}

/// The payload of a notification.
#[derive(Debug, PartialEq, Eq)]
pub enum FileContent {
    /// The text of the file.
    Text(String),
    /// The file is gone.
    Remove,
    /// The file could not be read; the message says why.
    Error(String),
}

/// A [`FileContent`] as a mathematical value.
pub enum ContentView {
    Text(Seq<char>),
    Remove,
    Error(Seq<char>),
}

impl View for FileContent {
    type V = ContentView;

    open spec fn view(&self) -> ContentView {
        match self {
            FileContent::Text(text) => ContentView::Text(text@),
            FileContent::Remove => ContentView::Remove,
            FileContent::Error(message) => ContentView::Error(message@),
        }
    }
}

impl Clone for FileContent {
    fn clone(&self) -> (copy: Self)
        ensures
            copy == *self,
    {
        match self {
            FileContent::Text(text) => FileContent::Text(text.clone()),
            FileContent::Remove => FileContent::Remove,
            FileContent::Error(message) => FileContent::Error(message.clone()),
        }
    }
}

/// `std::io::Error`, as an opaque value.
#[verifier::external_type_specification]
#[verifier::external_body]
pub struct ExIoError(std::io::Error);

impl vstd::std_specs::convert::FromSpecImpl<std::io::Error> for FileContent {
    open spec fn obeys_from_spec() -> bool {
        false
    }

    open spec fn from_spec(e: std::io::Error) -> FileContent {
        arbitrary()
    }
}

impl From<std::io::Error> for FileContent {
    /// A failed file operation as a payload: always an `Error`, whose
    /// message is the text that the failure displays as.
    fn from(e: std::io::Error) -> (content: FileContent)
        ensures
            content matches FileContent::Error(message)
                && vstd::string::to_string_from_display_ensures::<std::io::Error>(&e, message),
    {
        FileContent::Error(e.to_string())
    }
}

/// One notification: a payload for one subscriber.
pub struct FileEvent<T> {
    /// The token that the subscriber registered with.
    pub opaque: T,
    /// What happened to the file.
    pub content: FileContent,
}

/// Why no event was handed out.
#[derive(Clone, Copy, Debug, PartialEq, Eq, Structural)]
pub enum TryError {
    /// No event is ready.
    Empty,
    /// The engine has stopped; no further event will arrive.
    Closed,
}

} // verus!
