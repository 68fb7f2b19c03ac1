//! The two persisted collections. Bookmarks form a flat list in storage
//! order: appended on creation, removed by id, queried by URL. History is
//! kept most-recent-first and capped, the oldest entries falling off the
//! end. Reading and writing the backing files is the host's part; these
//! types hold the collections and every rule about their contents.

use vstd::prelude::*;
use vstd::math::min;
use vstd::string::StrSliceExecFns;
use crate::chars::string_from_chars;
use crate::codec::{parse_doc, parse_doc_text, render_doc, render_doc_text};
use crate::clock::{now_unix_millis, now_unix_secs};
use crate::digits::{push_digits, spec_digits};
use crate::model::{records_view, Record, RecordV};

verus! {

/// History keeps at most this many entries.
pub const HISTORY_CAP: usize = 1000;

/// How many entries a history query returns when the caller asks for no
/// particular number.
pub const DEFAULT_HISTORY_LIMIT: usize = 100;

/// `s` without the records whose id is `id`.
pub open spec fn remove_id(s: Seq<RecordV>, id: Seq<char>) -> Seq<RecordV>
    decreases s.len(),
{
    if s.len() == 0 {
        Seq::empty()
    } else if s[0].id == id {
        remove_id(s.drop_first(), id)
    } else {
        seq![s[0]] + remove_id(s.drop_first(), id)
    }
}

/// Some record of `s` carries the URL `url`.
pub open spec fn has_url(s: Seq<RecordV>, url: Seq<char>) -> bool {
    exists|i: int| 0 <= i < s.len() && s[i].url == url
}

/// Removing an id removes exactly the records carrying it: none of them
/// stays, every other record stays, and nothing new appears.
pub proof fn lemma_remove_id_exact(s: Seq<RecordV>, id: Seq<char>)
    ensures
        forall|i: int| 0 <= i < remove_id(s, id).len() ==> (#[trigger] remove_id(s, id)[i]).id
            != id,
        forall|i: int|
            0 <= i < s.len() && (#[trigger] s[i]).id != id ==> remove_id(s, id).contains(s[i]),
        forall|i: int| 0 <= i < remove_id(s, id).len() ==> s.contains(
            #[trigger] remove_id(s, id)[i],
        ),
    decreases s.len(),
{
    if s.len() > 0 {
        lemma_remove_id_exact(s.drop_first(), id);
        let rest = remove_id(s.drop_first(), id);
        assert forall|i: int| 0 <= i < s.len() && (#[trigger] s[i]).id != id implies remove_id(
            s,
            id,
        ).contains(s[i]) by {
            if i == 0 {
                assert(remove_id(s, id)[0] == s[0]);
            } else {
                assert(s.drop_first()[i - 1] == s[i]);
                assert(rest.contains(s[i]));
                let w = choose|j: int| 0 <= j < rest.len() && rest[j] == s[i];
                if s[0].id == id {
                    assert(remove_id(s, id)[w] == s[i]);
                } else {
                    assert(remove_id(s, id)[w + 1] == s[i]);
                }
            }
        }
        assert forall|i: int| 0 <= i < remove_id(s, id).len() implies s.contains(
            #[trigger] remove_id(s, id)[i],
        ) by {
            if s[0].id == id {
                assert(remove_id(s, id)[i] == rest[i]);
                let w = choose|j: int| 0 <= j < s.drop_first().len() && s.drop_first()[j]
                    == rest[i];
                assert(s[w + 1] == rest[i]);
            } else {
                if i == 0 {
                    assert(s[0] == remove_id(s, id)[0]);
                } else {
                    assert(remove_id(s, id)[i] == rest[i - 1]);
                    let w = choose|j: int| 0 <= j < s.drop_first().len() && s.drop_first()[j]
                        == rest[i - 1];
                    assert(s[w + 1] == rest[i - 1]);
                }
            }
        }
    }
}

/// Builds the id of a record made at `millis`: a fixed prefix and the
/// moment's decimal digits, as the stores have always written them.
fn record_id(history: bool, millis: u64) -> (s: String)
    ensures
        !history ==> s@ == seq!['b', 'm', '-'] + spec_digits(millis),
        history ==> s@ == seq!['h', '-'] + spec_digits(millis),
{
    let mut v: Vec<char> = Vec::new();
    if history {
        v.push('h');
        v.push('-');
    } else {
        v.push('b');
        v.push('m');
        v.push('-');
    }
    push_digits(millis, &mut v);
    proof {
        if history {
            assert(v@ =~= seq!['h', '-'] + spec_digits(millis));
        } else {
            assert(v@ =~= seq!['b', 'm', '-'] + spec_digits(millis));
        }
    }
    string_from_chars(&v)
}

/// The flat list of bookmarks, in storage order.
pub struct BookmarksData {
    pub bookmarks: Vec<Record>,
}

impl Default for BookmarksData {
    /// The store before anything was bookmarked: empty.
    fn default() -> (d: Self)
        ensures
            d.bookmarks@.len() == 0,
    {
        BookmarksData { bookmarks: Vec::new() }
    }
}

impl BookmarksData {
    /// Appends a fresh bookmark for `url`, stamped with the current
    /// moment, and returns it.
    pub fn add_bookmark(&mut self, url: String, title: String) -> (b: Record)
        ensures
            records_view(final(self).bookmarks@) == records_view(old(self).bookmarks@).push(b@),
            b@.url == url@,
            b@.title == title@,
            exists|m: u64| b@.id == seq!['b', 'm', '-'] + spec_digits(m),
    {
        let millis = now_unix_millis();
        let timestamp = now_unix_secs();
        let id = record_id(false, millis);
        let b = Record { id, url, title, timestamp };
        let out = b.clone();
        self.bookmarks.push(b);
        proof {
            assert(records_view(self.bookmarks@) =~= records_view(old(self).bookmarks@).push(
                out@,
            ));
            assert(out@.id == seq!['b', 'm', '-'] + spec_digits(millis));
        }
        out
    }

    /// All bookmarks, in storage order.
    pub fn get_bookmarks(&self) -> (r: Vec<Record>)
        ensures
            records_view(r@) == records_view(self.bookmarks@),
    {
        let mut r: Vec<Record> = Vec::new();
        let n = self.bookmarks.len();
        let mut i: usize = 0;
        while i < n
            invariant
                i <= n,
                n == self.bookmarks@.len(),
                r@.len() == i,
                forall|j: int| 0 <= j < i ==> (#[trigger] r@[j])@ == self.bookmarks@[j]@,
            decreases n - i,
        {
            r.push(self.bookmarks[i].clone());
            i = i + 1;
        }
        proof {
            assert(records_view(r@) =~= records_view(self.bookmarks@));
        }
        r
    }

    /// Drops every bookmark whose id is `id`, keeping the rest in order.
    pub fn delete_bookmark(&mut self, id: &str)
        ensures
            records_view(final(self).bookmarks@) == remove_id(
                records_view(old(self).bookmarks@),
                id@,
            ),
    {
        let mut kept: Vec<Record> = Vec::new();
        let n = self.bookmarks.len();
        let mut i: usize = 0;
        proof {
            assert(records_view(kept@) =~= Seq::<RecordV>::empty());
            assert(records_view(self.bookmarks@).skip(0) =~= records_view(self.bookmarks@));
            assert(records_view(kept@) + remove_id(records_view(self.bookmarks@), id@)
                =~= remove_id(records_view(self.bookmarks@), id@));
        }
        while i < n
            invariant
                i <= n,
                n == self.bookmarks@.len(),
                records_view(kept@) + remove_id(
                    records_view(self.bookmarks@).skip(i as int),
                    id@,
                ) == remove_id(records_view(self.bookmarks@), id@),
            decreases n - i,
        {
            let ghost pre = records_view(self.bookmarks@).skip(i as int);
            proof {
                assert(pre[0] == records_view(self.bookmarks@)[i as int]);
                assert(pre.drop_first() =~= records_view(self.bookmarks@).skip(i as int + 1));
            }
            if !str_eq(self.bookmarks[i].id.as_str(), id) {
                kept.push(self.bookmarks[i].clone());
                proof {
                    assert(records_view(kept@) + remove_id(
                        records_view(self.bookmarks@).skip(i as int + 1),
                        id@,
                    ) =~= remove_id(records_view(self.bookmarks@), id@));
                }
            }
            i = i + 1;
        }
        proof {
            assert(records_view(self.bookmarks@).skip(n as int) =~= Seq::<RecordV>::empty());
            assert(records_view(kept@) =~= records_view(kept@) + remove_id(
                records_view(self.bookmarks@).skip(n as int),
                id@,
            ));
        }
        self.bookmarks = kept;
    }

    /// Whether any stored bookmark points at `url` — exactly a linear
    /// scan of the store.
    pub fn is_bookmarked(&self, url: &str) -> (r: bool)
        ensures
            r == has_url(records_view(self.bookmarks@), url@),
    {
        let n = self.bookmarks.len();
        let mut i: usize = 0;
        while i < n
            invariant
                i <= n,
                n == self.bookmarks@.len(),
                forall|j: int| 0 <= j < i ==> records_view(self.bookmarks@)[j].url != url@,
            decreases n - i,
        {
            if str_eq(self.bookmarks[i].url.as_str(), url) {
                proof {
                    assert(records_view(self.bookmarks@)[i as int].url == url@);
                }
                return true;
            }
            i = i + 1;
        }
        false
    }
}

/// The history list, most recent first, at most `HISTORY_CAP` entries.
pub struct HistoryData {
    pub entries: Vec<Record>,
}

impl Default for HistoryData {
    /// The store before anything was visited: empty.
    fn default() -> (d: Self)
        ensures
            d.entries@.len() == 0,
    {
        HistoryData { entries: Vec::new() }
    }
}

impl HistoryData {
    /// Prepends a fresh entry for `url`, stamped with the current moment,
    /// and lets the oldest entry fall off once the store is full: the
    /// store never holds more than `HISTORY_CAP` entries.
    pub fn add_to_history(&mut self, url: String, title: String)
        ensures
            final(self).entries@.len() <= HISTORY_CAP,
            records_view(final(self).entries@) == records_view(old(self).entries@).insert(
                0,
                records_view(final(self).entries@)[0],
            ).take(min(old(self).entries@.len() as int + 1, HISTORY_CAP as int)),
            records_view(final(self).entries@)[0].url == url@,
            records_view(final(self).entries@)[0].title == title@,
            exists|m: u64| records_view(final(self).entries@)[0].id == seq!['h', '-']
                + spec_digits(m),
    {
        let millis = now_unix_millis();
        let timestamp = now_unix_secs();
        let id = record_id(true, millis);
        let e = Record { id, url, title, timestamp };
        let ghost ev = e@;
        self.entries.insert(0, e);
        if self.entries.len() > HISTORY_CAP {
            self.entries.truncate(HISTORY_CAP);
        }
        proof {
            assert(records_view(self.entries@)[0] == ev);
            assert(records_view(self.entries@) =~= records_view(old(self).entries@).insert(
                0,
                ev,
            ).take(min(old(self).entries@.len() as int + 1, HISTORY_CAP as int)));
        }
    }

    /// The first `limit` entries (the default number when none is given),
    /// most recent first.
    pub fn get_history(&self, limit: Option<usize>) -> (r: Vec<Record>)
        ensures
            records_view(r@) == records_view(self.entries@).take(
                min(
                    (match limit {
                        Some(l) => l as int,
                        None => DEFAULT_HISTORY_LIMIT as int,
                    }),
                    self.entries@.len() as int,
                ),
            ),
    {
        let lim = match limit {
            Some(l) => l,
            None => DEFAULT_HISTORY_LIMIT,
        };
        let n = if lim < self.entries.len() {
            lim
        } else {
            self.entries.len()
        };
        let mut r: Vec<Record> = Vec::new();
        let mut i: usize = 0;
        while i < n
            invariant
                i <= n,
                n <= self.entries@.len(),
                r@.len() == i,
                forall|j: int| 0 <= j < i ==> (#[trigger] r@[j])@ == self.entries@[j]@,
            decreases n - i,
        {
            r.push(self.entries[i].clone());
            i = i + 1;
        }
        proof {
            assert(records_view(r@) =~= records_view(self.entries@).take(n as int));
        }
        r
    }

    /// Forgets everything: the store is empty afterwards.
    pub fn clear_history(&mut self)
        ensures
            final(self).entries@.len() == 0,
    {
        self.entries.clear();
    }
}

/// Reads the bookmarks file's text back into a store. Text that is no
/// rendered bookmarks document — or no text at all, as when the file
/// could not be read — yields the empty store, never an error.
pub fn load_bookmarks(text: Option<&str>) -> (d: BookmarksData)
    ensures
        (match text {
            Some(t) => (match parse_doc("bookmarks"@, t@) {
                Some(rs) => records_view(d.bookmarks@) == rs,
                None => d.bookmarks@.len() == 0,
            }),
            None => d.bookmarks@.len() == 0,
        }),
{
    match text {
        None => BookmarksData { bookmarks: Vec::new() },
        Some(t) => match parse_doc_text("bookmarks", t) {
            Some(v) => BookmarksData { bookmarks: v },
            None => BookmarksData { bookmarks: Vec::new() },
        },
    }
}

/// Writes the bookmarks store as the text of its file.
pub fn save_bookmarks(d: &BookmarksData) -> (s: String)
    ensures
        s@ == render_doc("bookmarks"@, records_view(d.bookmarks@)),
{
    render_doc_text("bookmarks", &d.bookmarks)
}

/// Reads the history file's text back into a store, the same way
/// `load_bookmarks` reads its file.
pub fn load_history(text: Option<&str>) -> (d: HistoryData)
    ensures
        (match text {
            Some(t) => (match parse_doc("entries"@, t@) {
                Some(rs) => records_view(d.entries@) == rs,
                None => d.entries@.len() == 0,
            }),
            None => d.entries@.len() == 0,
        }),
{
    match text {
        None => HistoryData { entries: Vec::new() },
        Some(t) => match parse_doc_text("entries", t) {
            Some(v) => HistoryData { entries: v },
            None => HistoryData { entries: Vec::new() },
        },
    }
}

/// Writes the history store as the text of its file.
pub fn save_history(d: &HistoryData) -> (s: String)
    ensures
        s@ == render_doc("entries"@, records_view(d.entries@)),
{
    render_doc_text("entries", &d.entries)
}

/// Loading a saved store reads back exactly the records it held: for
/// either store's key, parsing a rendered document yields the rendered
/// records, so `save_bookmarks` then `load_bookmarks` — and likewise
/// `save_history` then `load_history` — preserve the collection.
pub proof fn lemma_store_round_trip(rs: Seq<RecordV>)
    ensures
        parse_doc("bookmarks"@, render_doc("bookmarks"@, rs)) == Some(rs),
        parse_doc("entries"@, render_doc("entries"@, rs)) == Some(rs),
{
    crate::codec::lemma_doc_round_trip("bookmarks"@, rs);
    crate::codec::lemma_doc_round_trip("entries"@, rs);
}

/// Compares two string slices character by character.
fn str_eq(a: &str, b: &str) -> (r: bool)
    ensures
        r == (a@ == b@),
{
    let la = a.unicode_len();
    let lb = b.unicode_len();
    if la != lb {
        return false;
    }
    let mut i: usize = 0;
    while i < la
        invariant
            i <= la,
            la == a@.len(),
            la == b@.len(),
            forall|j: int| 0 <= j < i ==> a@[j] == b@[j],
        decreases la - i,
    {
        if a.get_char(i) != b.get_char(i) {
            return false;
        }
        i = i + 1;
    }
    proof {
        assert(a@ =~= b@);
    }
    true
}

} // verus!
