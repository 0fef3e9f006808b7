//! Notification events: after every successful operation the store appends
//! one event to its log, for an external observer to drain.

use vstd::prelude::*;

verus! {

/// Emitted after a payload was stored: the digest it was filed under and the
/// caller-supplied name.
pub struct FileStored {
    pub file_hash: String,
    pub file_name: String,
}

/// Emitted after a stored payload was retrieved: the digest that was looked
/// up and the name it was stored under.
pub struct FileRetrieved {
    pub file_hash: String,
    pub file_name: String,
}

/// One entry of the store's append-only notification log.
pub enum StorageEvent {
    Stored(FileStored),
    Retrieved(FileRetrieved),
}

/// Which operation an event reports, as a mathematical value.
pub enum EventKind {
    Stored,
    Retrieved,
}

impl View for StorageEvent {
    /// An event, mathematically: its kind, the digest, and the name.
    type V = (EventKind, Seq<char>, Seq<char>);

    open spec fn view(&self) -> Self::V {
        match self {
            StorageEvent::Stored(e) => (EventKind::Stored, e.file_hash@, e.file_name@),
            StorageEvent::Retrieved(e) => (EventKind::Retrieved, e.file_hash@, e.file_name@),
        }
    }
}

} // verus!
