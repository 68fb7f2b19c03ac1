use tabshell::model::Record;
use tabshell::store::{BookmarksData, HistoryData, DEFAULT_HISTORY_LIMIT, HISTORY_CAP};

fn rec(id: &str, url: &str, title: &str, ts: u64) -> Record {
    Record::new(id.to_string(), url.to_string(), title.to_string(), ts)
}

#[test]
fn add_and_get_bookmarks() {
    let mut d = BookmarksData::default();
    let b1 = d.add_bookmark("http://a.test/".to_string(), "A".to_string());
    let b2 = d.add_bookmark("http://b.test/".to_string(), "B".to_string());
    assert!(b1.id.starts_with("bm-"));
    assert!(b2.id.starts_with("bm-"));
    let all = d.get_bookmarks();
    assert_eq!(all.len(), 2);
    assert_eq!(all[0].url, "http://a.test/");
    assert_eq!(all[0].title, "A");
    assert_eq!(all[1].url, "http://b.test/");
    assert_eq!(all[1].title, "B");
}

#[test]
fn delete_bookmark_removes_exactly_one_id() {
    let mut d = BookmarksData {
        bookmarks: vec![
            rec("bm-1", "http://a.test/", "A", 1),
            rec("bm-2", "http://b.test/", "B", 2),
            rec("bm-3", "http://c.test/", "C", 3),
        ],
    };
    d.delete_bookmark("bm-1");
    let all = d.get_bookmarks();
    assert_eq!(all.len(), 2);
    assert_eq!(all[0].url, "http://b.test/");
    assert_eq!(all[1].url, "http://c.test/");
    assert!(!d.is_bookmarked("http://a.test/"));
    assert!(d.is_bookmarked("http://b.test/"));
    // Deleting an unknown id changes nothing.
    d.delete_bookmark("bm-nonexistent");
    assert_eq!(d.get_bookmarks().len(), 2);
}

#[test]
fn is_bookmarked_reflects_contents() {
    let mut d = BookmarksData::default();
    assert!(!d.is_bookmarked("http://a.test/"));
    let a = d.add_bookmark("http://a.test/".to_string(), "A".to_string());
    assert!(d.is_bookmarked("http://a.test/"));
    assert!(!d.is_bookmarked("http://a.test/other"));
    d.delete_bookmark(&a.id);
    assert!(!d.is_bookmarked("http://a.test/"));
}

#[test]
fn history_is_capped_and_most_recent_first() {
    let mut h = HistoryData::default();
    for i in 0..(HISTORY_CAP + 1) {
        h.add_to_history(format!("http://h{}.test/", i), format!("t{}", i));
    }
    let all = h.get_history(Some(HISTORY_CAP * 2));
    assert_eq!(all.len(), HISTORY_CAP);
    // The newest entry leads, the very first one has fallen off.
    assert_eq!(all[0].url, format!("http://h{}.test/", HISTORY_CAP));
    assert_eq!(all[HISTORY_CAP - 1].url, "http://h1.test/");
}

#[test]
fn history_limit_defaults_to_one_hundred() {
    let mut h = HistoryData::default();
    for i in 0..150 {
        h.add_to_history(format!("http://h{}.test/", i), String::new());
    }
    assert_eq!(h.get_history(None).len(), DEFAULT_HISTORY_LIMIT);
    assert_eq!(h.get_history(Some(5)).len(), 5);
    assert_eq!(h.get_history(Some(0)).len(), 0);
    let firsts = h.get_history(Some(2));
    assert_eq!(firsts[0].url, "http://h149.test/");
    assert_eq!(firsts[1].url, "http://h148.test/");
    let ids_prefixed = h.get_history(Some(1));
    assert!(ids_prefixed[0].id.starts_with("h-"));
}

#[test]
fn clear_history_empties_the_store() {
    let mut h = HistoryData::default();
    h.add_to_history("http://a.test/".to_string(), "A".to_string());
    h.add_to_history("http://b.test/".to_string(), "B".to_string());
    h.clear_history();
    assert_eq!(h.get_history(None).len(), 0);
    assert_eq!(h.get_history(Some(10)).len(), 0);
}
