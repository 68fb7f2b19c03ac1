use tabshell::tabs::{
    init_webviews, parse_tab_label, tab_label, Rect, WindowSize, OFFSCREEN_X, OFFSCREEN_Y,
    TOOLBAR_HEIGHT,
};
use tabshell::window::{maximize_action, WindowAction};
use tabshell::ShellError;

fn win() -> WindowSize {
    WindowSize { width: 800, height: 600 }
}

fn content() -> Rect {
    Rect { x: 0, y: TOOLBAR_HEIGHT, width: 800, height: 600 - TOOLBAR_HEIGHT }
}

#[test]
fn create_then_get_url() {
    let mut tabs = init_webviews();
    let id = tabs.create_tab("http://example.com", win()).unwrap();
    assert_eq!(id, 1);
    // The stored URL is the parsed URL's serialization: a path appears.
    assert_eq!(tabs.get_tab_url(id), "http://example.com/");
    let id2 = tabs.create_tab("https://example.org/a?b=c", win()).unwrap();
    assert_eq!(id2, 2);
    assert_eq!(tabs.get_tab_url(id2), "https://example.org/a?b=c");
}

#[test]
fn invalid_url_rejected() {
    let mut tabs = init_webviews();
    let r = tabs.create_tab("not a url", win());
    assert_eq!(r, Err(ShellError::InvalidUrl));
    assert_eq!(ShellError::InvalidUrl.message(), "Invalid URL");
    assert!(!tabs.has_tab(1));
}

#[test]
fn unknown_tab_reads_empty() {
    let tabs = init_webviews();
    assert_eq!(tabs.get_tab_url(42), "");
    assert_eq!(tabs.get_tab_rect(42), None);
}

#[test]
fn get_tab_title_is_empty() {
    let mut tabs = init_webviews();
    let id = tabs.create_tab("http://example.com", win()).unwrap();
    assert_eq!(tabs.get_tab_title(id), "");
}

#[test]
fn show_tab_parks_all_others() {
    let mut tabs = init_webviews();
    let a = tabs.create_tab("http://a.test/", win()).unwrap();
    let b = tabs.create_tab("http://b.test/", win()).unwrap();

    tabs.show_tab(b, win());
    let ra = tabs.get_tab_rect(a).unwrap();
    let rb = tabs.get_tab_rect(b).unwrap();
    assert_eq!((ra.x, ra.y), (OFFSCREEN_X, OFFSCREEN_Y));
    assert_eq!(rb, content());

    tabs.show_tab(a, win());
    let ra = tabs.get_tab_rect(a).unwrap();
    let rb = tabs.get_tab_rect(b).unwrap();
    assert_eq!(ra, content());
    assert_eq!((rb.x, rb.y), (OFFSCREEN_X, OFFSCREEN_Y));
}

#[test]
fn show_unknown_tab_parks_everything() {
    let mut tabs = init_webviews();
    let a = tabs.create_tab("http://a.test/", win()).unwrap();
    tabs.show_tab(99, win());
    let ra = tabs.get_tab_rect(a).unwrap();
    assert_eq!((ra.x, ra.y), (OFFSCREEN_X, OFFSCREEN_Y));
    // Hiding keeps the size.
    assert_eq!((ra.width, ra.height), (800, 600 - TOOLBAR_HEIGHT));
}

#[test]
fn fullscreen_toggle() {
    let mut tabs = init_webviews();
    let id = tabs.create_tab("http://a.test/", win()).unwrap();
    tabs.set_fullscreen(id, true, win());
    assert_eq!(
        tabs.get_tab_rect(id).unwrap(),
        Rect { x: 0, y: 0, width: 800, height: 600 }
    );
    tabs.set_fullscreen(id, false, win());
    assert_eq!(tabs.get_tab_rect(id).unwrap(), content());
}

#[test]
fn close_tab_removes_and_keeps_labels_fresh() {
    let mut tabs = init_webviews();
    let a = tabs.create_tab("http://a.test/", win()).unwrap();
    let b = tabs.create_tab("http://b.test/", win()).unwrap();
    tabs.close_tab(a);
    assert!(!tabs.has_tab(a));
    assert!(tabs.has_tab(b));
    assert_eq!(tabs.get_tab_url(a), "");
    // A later tab never reuses a closed label.
    let c = tabs.create_tab("http://c.test/", win()).unwrap();
    assert_eq!(c, 3);
    tabs.close_tab(999);
    assert!(tabs.has_tab(b));
}

#[test]
fn navigate_tab_updates_url() {
    let mut tabs = init_webviews();
    let id = tabs.create_tab("http://a.test/", win()).unwrap();
    tabs.navigate_tab(id, "http://b.test/x").unwrap();
    assert_eq!(tabs.get_tab_url(id), "http://b.test/x");
    let r = tabs.navigate_tab(id, "::nonsense::");
    assert_eq!(r, Err(ShellError::InvalidUrl));
    assert_eq!(tabs.get_tab_url(id), "http://b.test/x");
    // Navigating an unknown tab with a valid URL is accepted silently.
    tabs.navigate_tab(77, "http://c.test/").unwrap();
}

#[test]
fn tab_labels_round_trip() {
    assert_eq!(tab_label(1), "tab-1");
    assert_eq!(tab_label(1234567890), "tab-1234567890");
    assert_eq!(parse_tab_label("tab-1"), Some(1));
    assert_eq!(parse_tab_label("tab-1234567890"), Some(1234567890));
    assert_eq!(parse_tab_label("tab-"), None);
    assert_eq!(parse_tab_label("tab-12x"), None);
    assert_eq!(parse_tab_label("window-3"), None);
}

#[test]
fn maximize_toggles() {
    assert_eq!(maximize_action(false), WindowAction::Maximize);
    assert_eq!(maximize_action(true), WindowAction::Unmaximize);
}
