use tabshell::model::Record;
use tabshell::store::{
    load_bookmarks, load_history, save_bookmarks, save_history, BookmarksData, HistoryData,
};

fn rec(id: &str, url: &str, title: &str, ts: u64) -> Record {
    Record::new(id.to_string(), url.to_string(), title.to_string(), ts)
}

fn assert_same(a: &[Record], b: &[Record]) {
    assert_eq!(a.len(), b.len());
    for (x, y) in a.iter().zip(b.iter()) {
        assert_eq!(x.id, y.id);
        assert_eq!(x.url, y.url);
        assert_eq!(x.title, y.title);
        assert_eq!(x.timestamp, y.timestamp);
    }
}

#[test]
fn bookmarks_save_load_round_trip() {
    let d = BookmarksData {
        bookmarks: vec![
            rec("bm-1", "http://a.test/", "Plain", 11),
            rec("bm-2", "http://b.test/?q=1", "Quote \" backslash \\ done", 22),
            rec("bm-3", "http://c.test/", "Line\nbreak\tand\rreturn", 33),
        ],
    };
    let text = save_bookmarks(&d);
    let back = load_bookmarks(Some(&text));
    assert_same(&d.bookmarks, &back.bookmarks);
}

#[test]
fn history_save_load_round_trip() {
    let h = HistoryData {
        entries: vec![
            rec("h-9", "http://new.test/", "newest", 99),
            rec("h-8", "http://old.test/", "", 88),
        ],
    };
    let text = save_history(&h);
    let back = load_history(Some(&text));
    assert_same(&h.entries, &back.entries);
}

#[test]
fn empty_round_trip_and_exact_text() {
    let d = BookmarksData { bookmarks: vec![] };
    let text = save_bookmarks(&d);
    assert_eq!(text, "{\n  \"bookmarks\": []\n}");
    assert_eq!(load_bookmarks(Some(&text)).bookmarks.len(), 0);

    let h = HistoryData { entries: vec![] };
    assert_eq!(save_history(&h), "{\n  \"entries\": []\n}");
}

#[test]
fn one_record_exact_text() {
    let d = BookmarksData { bookmarks: vec![rec("bm-1", "http://x/", "T", 5)] };
    let expected = "{\n  \"bookmarks\": [\n    {\n      \"id\": \"bm-1\",\n      \"url\": \"http://x/\",\n      \"title\": \"T\",\n      \"timestamp\": 5\n    }\n  ]\n}";
    assert_eq!(save_bookmarks(&d), expected);
}

#[test]
fn malformed_text_reads_as_empty() {
    assert_eq!(load_bookmarks(None).bookmarks.len(), 0);
    assert_eq!(load_bookmarks(Some("")).bookmarks.len(), 0);
    assert_eq!(load_bookmarks(Some("not json at all")).bookmarks.len(), 0);
    assert_eq!(
        load_bookmarks(Some("{\n  \"bookmarks\": [\n")).bookmarks.len(),
        0
    );
    // A history document does not load as bookmarks.
    let h = HistoryData { entries: vec![rec("h-1", "http://a.test/", "", 1)] };
    let text = save_history(&h);
    assert_eq!(load_bookmarks(Some(&text)).bookmarks.len(), 0);
}

#[test]
fn trailing_garbage_is_rejected() {
    let d = BookmarksData { bookmarks: vec![rec("bm-1", "http://x/", "T", 5)] };
    let mut text = save_bookmarks(&d);
    text.push_str(" ");
    assert_eq!(load_bookmarks(Some(&text)).bookmarks.len(), 0);
}

#[test]
fn written_documents_are_valid_json() {
    let d = BookmarksData {
        bookmarks: vec![
            rec("bm-1", "http://a.test/", "He said \"hi\" \\ bye", 7),
            rec("bm-2", "http://b.test/", "tab\there", 8),
        ],
    };
    let text = save_bookmarks(&d);
    let v: serde_json::Value = serde_json::from_str(&text).unwrap();
    let arr = v["bookmarks"].as_array().unwrap();
    assert_eq!(arr.len(), 2);
    assert_eq!(arr[0]["id"], "bm-1");
    assert_eq!(arr[0]["url"], "http://a.test/");
    assert_eq!(arr[0]["title"], "He said \"hi\" \\ bye");
    assert_eq!(arr[0]["timestamp"], 7);
    assert_eq!(arr[1]["title"], "tab\there");
}

#[test]
fn reads_documents_other_writers_pretty_print() {
    // The exact shape serde_json's pretty printer gives this schema.
    let text = "{\n  \"entries\": [\n    {\n      \"id\": \"h-42\",\n      \"url\": \"http://visited.test/\",\n      \"title\": \"A \\\"quoted\\\" title\",\n      \"timestamp\": 1700000000\n    }\n  ]\n}";
    let h = load_history(Some(text));
    assert_eq!(h.entries.len(), 1);
    assert_eq!(h.entries[0].id, "h-42");
    assert_eq!(h.entries[0].url, "http://visited.test/");
    assert_eq!(h.entries[0].title, "A \"quoted\" title");
    assert_eq!(h.entries[0].timestamp, 1700000000);
}
