//! The one record shape both persisted collections use: bookmarks and
//! history entries carry an identifier, a URL, a title and a timestamp in
//! seconds since the Unix epoch.

use vstd::prelude::*;

verus! {

/// A persisted record of either store.
pub struct Record {
    pub id: String,
    pub url: String,
    pub title: String,
    pub timestamp: u64,
}

/// A bookmark: created on explicit user action, removed by id, never
/// mutated in place.
pub type Bookmark = Record;

/// A history entry: prepended on every navigation, dropped from the tail
/// once the store is full.
pub type HistoryEntry = Record;

/// The mathematical value of a record.
#[verifier::ext_equal]
pub struct RecordV {
    pub id: Seq<char>,
    pub url: Seq<char>,
    pub title: Seq<char>,
    pub timestamp: u64,
}

impl View for Record {
    type V = RecordV;

    open spec fn view(&self) -> RecordV {
        RecordV { id: self.id@, url: self.url@, title: self.title@, timestamp: self.timestamp }
    }
}

/// The values of a sequence of records.
pub open spec fn records_view(rs: Seq<Record>) -> Seq<RecordV> {
    rs.map_values(|r: Record| r@)
}

impl Clone for Record {
    /// A cloned record keeps the same value.
    fn clone(&self) -> (r: Self)
        ensures
            r@ == self@,
    {
        Record {
            id: self.id.clone(),
            url: self.url.clone(),
            title: self.title.clone(),
            timestamp: self.timestamp,
        }
    }
}

impl Record {
    /// Builds a record from its four fields.
    pub fn new(id: String, url: String, title: String, timestamp: u64) -> (r: Record)
        ensures
            r@ == (RecordV { id: id@, url: url@, title: title@, timestamp }),
    {
        Record { id, url, title, timestamp }
    }
}

} // verus!
