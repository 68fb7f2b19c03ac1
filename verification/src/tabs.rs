//! The tab controller: an owned registry of the embedded web surfaces, one
//! per tab, each identified by a never-reused numeric label. The controller
//! decides every tab's position and size in logical pixels — the host
//! framework only carries those rectangles out — so "hidden" means moved to
//! a fixed far off-screen position, and at most one tab sits in the content
//! area at a time.

use vstd::prelude::*;
use crate::ShellError;
use crate::chars::{string_from_chars, to_chars};
use crate::digits::{parse_u64_chars, push_digits, spec_digits, spec_parse_u64};
use crate::urls::{is_valid_url, parse_url, parsed_url};

verus! {

/// Height in logical pixels the frontend's toolbar occupies at the top of
/// the window; the content area starts below it.
pub const TOOLBAR_HEIGHT: i64 = 76;

/// Hidden tabs are parked at this x coordinate.
pub const OFFSCREEN_X: i64 = -10000;

/// Hidden tabs are parked at this y coordinate.
pub const OFFSCREEN_Y: i64 = -10000;

/// The main window's inner size, in logical pixels.
#[derive(Clone, Copy, PartialEq, Eq, Structural, Debug)]
pub struct WindowSize {
    pub width: i64,
    pub height: i64,
}

impl WindowSize {
    /// A size the host can report is non-negative in both directions.
    pub open spec fn wf(&self) -> bool {
        0 <= self.width && 0 <= self.height
    }
}

/// Position and size of one tab's surface, in logical pixels.
#[derive(Clone, Copy, PartialEq, Eq, Structural, Debug)]
pub struct Rect {
    pub x: i64,
    pub y: i64,
    pub width: i64,
    pub height: i64,
}

/// The content area: the full window width, below the toolbar.
pub open spec fn spec_content_rect(win: WindowSize) -> Rect {
    Rect {
        x: 0,
        y: TOOLBAR_HEIGHT,
        width: win.width,
        height: (win.height - TOOLBAR_HEIGHT) as i64,
    }
}

/// The whole window, for a tab in fullscreen.
pub open spec fn spec_fullscreen_rect(win: WindowSize) -> Rect {
    Rect { x: 0, y: 0, width: win.width, height: win.height }
}

/// `r` moved to the off-screen parking position, keeping its size.
pub open spec fn spec_hidden(r: Rect) -> Rect {
    Rect { x: OFFSCREEN_X, y: OFFSCREEN_Y, width: r.width, height: r.height }
}

/// A tab is on screen unless it sits at the off-screen parking position.
pub open spec fn on_screen(t: TabV) -> bool {
    !(t.rect.x == OFFSCREEN_X && t.rect.y == OFFSCREEN_Y)
}

/// The content area as a value.
pub fn content_rect(win: WindowSize) -> (r: Rect)
    requires
        win.wf(),
    ensures
        r == spec_content_rect(win),
{
    Rect { x: 0, y: TOOLBAR_HEIGHT, width: win.width, height: win.height - TOOLBAR_HEIGHT }
}

/// One registered tab: its numeric label, the URL it was last pointed at,
/// and where its surface stands.
pub struct Tab {
    pub id: u64,
    pub url: String,
    pub rect: Rect,
}

/// The mathematical value of a tab.
#[verifier::ext_equal]
pub struct TabV {
    pub id: u64,
    pub url: Seq<char>,
    pub rect: Rect,
}

impl View for Tab {
    type V = TabV;

    open spec fn view(&self) -> TabV {
        TabV { id: self.id, url: self.url@, rect: self.rect }
    }
}

/// The URL of the first tab with label `id`, if any.
pub open spec fn url_lookup(s: Seq<TabV>, id: u64) -> Option<Seq<char>>
    decreases s.len(),
{
    if s.len() == 0 {
        None
    } else if s[0].id == id {
        Some(s[0].url)
    } else {
        url_lookup(s.drop_first(), id)
    }
}

/// The rectangle of the first tab with label `id`, if any.
pub open spec fn rect_lookup(s: Seq<TabV>, id: u64) -> Option<Rect>
    decreases s.len(),
{
    if s.len() == 0 {
        None
    } else if s[0].id == id {
        Some(s[0].rect)
    } else {
        rect_lookup(s.drop_first(), id)
    }
}

/// Some tab carries label `id`.
pub open spec fn spec_has_tab(s: Seq<TabV>, id: u64) -> bool {
    exists|i: int| 0 <= i < s.len() && s[i].id == id
}

/// Lookups read the first match: ahead of index `i` nothing matches, at `i`
/// the label does, so the lookups return that tab's fields.
pub proof fn lemma_lookup_at(s: Seq<TabV>, id: u64, i: int)
    requires
        0 <= i < s.len(),
        s[i].id == id,
        forall|j: int| 0 <= j < i ==> s[j].id != id,
    ensures
        url_lookup(s, id) == Some(s[i].url),
        rect_lookup(s, id) == Some(s[i].rect),
    decreases s.len(),
{
    if i > 0 {
        lemma_lookup_at(s.drop_first(), id, i - 1);
    }
}

/// On a sequence without the label, the lookups return nothing.
pub proof fn lemma_lookup_absent(s: Seq<TabV>, id: u64)
    requires
        !spec_has_tab(s, id),
    ensures
        url_lookup(s, id) is None,
        rect_lookup(s, id) is None,
    decreases s.len(),
{
    if s.len() > 0 {
        assert(forall|i: int| 0 <= i < s.drop_first().len() ==> s.drop_first()[i] == s[i + 1]);
        lemma_lookup_absent(s.drop_first(), id);
    }
}

/// The registry of live tabs, with the counter the next label comes from.
pub struct Tabs {
    pub tabs: Vec<Tab>,
    pub next_id: u64,
}

impl View for Tabs {
    type V = Seq<TabV>;

    open spec fn view(&self) -> Seq<TabV> {
        self.tabs@.map_values(|t: Tab| t@)
    }
}

impl Tabs {
    /// Labels are never reused: every registered label is below the
    /// counter, and no two tabs share one.
    pub open spec fn wf(&self) -> bool {
        &&& forall|i: int| 0 <= i < self@.len() ==> (#[trigger] self@[i].id) < self.next_id
        &&& forall|i: int, j: int|
            0 <= i < j < self@.len() ==> (#[trigger] self@[i].id) != (#[trigger] self@[j].id)
    }

    /// Finds the position of the first tab with label `id`.
    fn find(&self, id: u64) -> (r: Option<usize>)
        ensures
            match r {
                Some(i) => i < self@.len() && self@[i as int].id == id && forall|j: int|
                    0 <= j < i ==> self@[j].id != id,
                None => !spec_has_tab(self@, id),
            },
    {
        let n = self.tabs.len();
        let mut i: usize = 0;
        while i < n
            invariant
                i <= n,
                n == self@.len(),
                forall|j: int| 0 <= j < i ==> self@[j].id != id,
            decreases n - i,
        {
            if self.tabs[i].id == id {
                return Some(i);
            }
            i = i + 1;
        }
        None
    }

    /// Whether a tab with label `id` is registered.
    pub fn has_tab(&self, id: u64) -> (r: bool)
        ensures
            r == spec_has_tab(self@, id),
    {
        self.find(id).is_some()
    }

    /// Creates a tab: the URL must parse, the new surface is placed in the
    /// content area, and the registry hands out the next label. An
    /// unparseable URL is rejected and nothing changes.
    pub fn create_tab(&mut self, url: &str, win: WindowSize) -> (r: Result<u64, ShellError>)
        requires
            old(self).wf(),
            old(self).next_id < u64::MAX,
            win.wf(),
        ensures
            final(self).wf(),
            r is Ok <==> is_valid_url(url@),
            r matches Ok(id) ==> {
                &&& id == old(self).next_id
                &&& final(self).next_id == old(self).next_id + 1
                &&& final(self)@ == old(self)@.push(
                    (TabV {
                        id,
                        url: parsed_url(url@)->0,
                        rect: spec_content_rect(win),
                    }),
                )
            },
            r is Err ==> r == Err::<u64, ShellError>(ShellError::InvalidUrl) && *final(self)
                == *old(self),
    {
        match parse_url(url) {
            None => Err(ShellError::InvalidUrl),
            Some(normalized) => {
                let id = self.next_id;
                self.next_id = id + 1;
                let rect = content_rect(win);
                self.tabs.push(Tab { id, url: normalized, rect });
                proof {
                    assert(self@ =~= old(self)@.push(
                        (TabV { id, url: parsed_url(url@)->0, rect: spec_content_rect(win) }),
                    ));
                }
                Ok(id)
            },
        }
    }

    /// Closes a tab: the first entry carrying the label leaves the
    /// registry; an unknown label changes nothing.
    pub fn close_tab(&mut self, id: u64)
        requires
            old(self).wf(),
        ensures
            final(self).wf(),
            final(self).next_id == old(self).next_id,
            spec_has_tab(old(self)@, id) ==> exists|j: int|
                0 <= j < old(self)@.len() && old(self)@[j].id == id && final(self)@ == old(
                    self,
                )@.remove(j),
            !spec_has_tab(old(self)@, id) ==> final(self)@ == old(self)@,
    {
        match self.find(id) {
            None => {
            },
            Some(i) => {
                self.tabs.remove(i);
                proof {
                    assert(self@ =~= old(self)@.remove(i as int));
                }
            },
        }
    }

    /// Points an existing tab at a new URL. The URL must parse, or the
    /// call is rejected and nothing changes; an unknown label is accepted
    /// silently, as the host has no surface to navigate.
    pub fn navigate_tab(&mut self, id: u64, url: &str) -> (r: Result<(), ShellError>)
        requires
            old(self).wf(),
        ensures
            final(self).wf(),
            final(self).next_id == old(self).next_id,
            r is Ok <==> is_valid_url(url@),
            r is Err ==> r == Err::<(), ShellError>(ShellError::InvalidUrl) && *final(self)
                == *old(self),
            r is Ok ==> final(self)@.len() == old(self)@.len() && forall|i: int|
                0 <= i < old(self)@.len() ==> #[trigger] final(self)@[i] == (if old(
                    self,
                )@[i].id == id {
                    (TabV {
                        id: old(self)@[i].id,
                        url: parsed_url(url@)->0,
                        rect: old(self)@[i].rect,
                    })
                } else {
                    old(self)@[i]
                }),
    {
        match parse_url(url) {
            None => Err(ShellError::InvalidUrl),
            Some(normalized) => {
                match self.find(id) {
                    None => {
                        proof {
                            assert(forall|i: int|
                                0 <= i < self@.len() ==> (#[trigger] self@[i]).id != id);
                        }
                        Ok(())
                    },
                    Some(i) => {
                        self.tabs[i].url = normalized;
                        proof {
                            assert(forall|j: int|
                                0 <= j < self@.len() && j != i ==> #[trigger] self@[j] == old(
                                    self,
                                )@[j]);
                        }
                        Ok(())
                    },
                }
            },
        }
    }

    /// Shows one tab: every other registered tab is parked off screen,
    /// keeping its size, and the named one — when registered — is placed
    /// in the content area. Afterwards at most one tab is on screen.
    pub fn show_tab(&mut self, id: u64, win: WindowSize)
        requires
            old(self).wf(),
            win.wf(),
        ensures
            final(self).wf(),
            final(self).next_id == old(self).next_id,
            final(self)@.len() == old(self)@.len(),
            forall|i: int|
                0 <= i < old(self)@.len() ==> #[trigger] final(self)@[i] == (if old(
                    self,
                )@[i].id == id {
                    (TabV {
                        id: old(self)@[i].id,
                        url: old(self)@[i].url,
                        rect: spec_content_rect(win),
                    })
                } else {
                    (TabV {
                        id: old(self)@[i].id,
                        url: old(self)@[i].url,
                        rect: spec_hidden(old(self)@[i].rect),
                    })
                }),
            forall|i: int, j: int|
                0 <= i < j < final(self)@.len() ==> !(on_screen(#[trigger] final(self)@[i])
                    && on_screen(#[trigger] final(self)@[j])),
    {
        let n = self.tabs.len();
        let mut i: usize = 0;
        while i < n
            invariant
                i <= n,
                n == self@.len(),
                self@.len() == old(self)@.len(),
                self.next_id == old(self).next_id,
                old(self).wf(),
                win.wf(),
                forall|k: int|
                    0 <= k < i ==> #[trigger] self@[k] == (if old(self)@[k].id == id {
                        (TabV {
                            id: old(self)@[k].id,
                            url: old(self)@[k].url,
                            rect: spec_content_rect(win),
                        })
                    } else {
                        (TabV {
                            id: old(self)@[k].id,
                            url: old(self)@[k].url,
                            rect: spec_hidden(old(self)@[k].rect),
                        })
                    }),
                forall|k: int| i <= k < n ==> #[trigger] self@[k] == old(self)@[k],
            decreases n - i,
        {
            let ghost prev = self@;
            let ghost prev_tabs = self.tabs@;
            if self.tabs[i].id == id {
                self.tabs[i].rect = content_rect(win);
            } else {
                let r = self.tabs[i].rect;
                self.tabs[i].rect = Rect {
                    x: OFFSCREEN_X,
                    y: OFFSCREEN_Y,
                    width: r.width,
                    height: r.height,
                };
            }
            proof {
                assert forall|k: int| 0 <= k < n && k != i as int implies #[trigger] self@[k]
                    == prev[k] by {
                    assert(self.tabs@[k] == prev_tabs[k]);
                    assert(self@[k] == self.tabs@[k]@);
                    assert(prev[k] == prev_tabs[k]@);
                }
                assert(self@[i as int].id == prev[i as int].id);
                assert(self@[i as int].url == prev[i as int].url);
            }
            i = i + 1;
        }
        proof {
            assert forall|a: int, b: int| 0 <= a < b < self@.len() implies !(on_screen(
                #[trigger] self@[a],
            ) && on_screen(#[trigger] self@[b])) by {
                assert(old(self)@[a].id != old(self)@[b].id);
            }
        }
    }

    /// Puts one tab's surface into fullscreen, or back into the content
    /// area; every other tab keeps its place.
    pub fn set_fullscreen(&mut self, id: u64, is_fullscreen: bool, win: WindowSize)
        requires
            old(self).wf(),
            win.wf(),
        ensures
            final(self).wf(),
            final(self).next_id == old(self).next_id,
            final(self)@.len() == old(self)@.len(),
            forall|i: int|
                0 <= i < old(self)@.len() ==> #[trigger] final(self)@[i] == (if old(
                    self,
                )@[i].id == id {
                    (TabV {
                        id: old(self)@[i].id,
                        url: old(self)@[i].url,
                        rect: if is_fullscreen {
                            spec_fullscreen_rect(win)
                        } else {
                            spec_content_rect(win)
                        },
                    })
                } else {
                    old(self)@[i]
                }),
    {
        match self.find(id) {
            None => {
                proof {
                    assert(forall|i: int|
                        0 <= i < self@.len() ==> (#[trigger] self@[i]).id != id);
                }
            },
            Some(i) => {
                let rect = if is_fullscreen {
                    Rect { x: 0, y: 0, width: win.width, height: win.height }
                } else {
                    content_rect(win)
                };
                self.tabs[i].rect = rect;
                proof {
                    assert(forall|j: int|
                        0 <= j < self@.len() && j != i ==> #[trigger] self@[j] == old(self)@[j]);
                }
            },
        }
    }

    /// The URL a tab was last pointed at; the empty string for an unknown
    /// label.
    pub fn get_tab_url(&self, id: u64) -> (r: String)
        ensures
            r@ == (match url_lookup(self@, id) {
                Some(u) => u,
                None => Seq::<char>::empty(),
            }),
    {
        match self.find(id) {
            Some(i) => {
                proof {
                    lemma_lookup_at(self@, id, i as int);
                }
                self.tabs[i].url.clone()
            },
            None => {
                proof {
                    lemma_lookup_absent(self@, id);
                }
                String::new()
            },
        }
    }

    /// The title of a tab. The host cannot report one synchronously, so
    /// this is always empty and the frontend resolves titles itself.
    pub fn get_tab_title(&self, id: u64) -> (r: String)
        ensures
            r@ == Seq::<char>::empty(),
    {
        let _ = id;
        String::new()
    }

    /// Where a tab's surface stands; nothing for an unknown label.
    pub fn get_tab_rect(&self, id: u64) -> (r: Option<Rect>)
        ensures
            r == rect_lookup(self@, id),
    {
        match self.find(id) {
            Some(i) => {
                proof {
                    lemma_lookup_at(self@, id, i as int);
                }
                Some(self.tabs[i].rect)
            },
            None => {
                proof {
                    lemma_lookup_absent(self@, id);
                }
                None
            },
        }
    }
}

/// Sets up the registry of web surfaces: empty, with labels starting at 1.
pub fn init_webviews() -> (t: Tabs)
    ensures
        t@ == Seq::<TabV>::empty(),
        t.next_id == 1,
        t.wf(),
{
    let t = Tabs { tabs: Vec::new(), next_id: 1 };
    proof {
        assert(t@ =~= Seq::<TabV>::empty());
    }
    t
}

/// The text of a tab's label.
pub open spec fn spec_tab_label(id: u64) -> Seq<char> {
    seq!['t', 'a', 'b', '-'] + spec_digits(id)
}

/// Renders the label of tab `id`.
pub fn tab_label(id: u64) -> (s: String)
    ensures
        s@ == spec_tab_label(id),
{
    let mut v: Vec<char> = Vec::new();
    v.push('t');
    v.push('a');
    v.push('b');
    v.push('-');
    push_digits(id, &mut v);
    proof {
        assert(v@ =~= spec_tab_label(id));
    }
    string_from_chars(&v)
}

/// The label a piece of text names, if it is one.
pub open spec fn spec_parse_tab_label(s: Seq<char>) -> Option<u64> {
    if s.len() >= 4 && s[0] == 't' && s[1] == 'a' && s[2] == 'b' && s[3] == '-' {
        match spec_parse_u64(s.skip(4)) {
            Some((n, rest)) => if rest.len() == 0 {
                Some(n)
            } else {
                None
            },
            None => None,
        }
    } else {
        None
    }
}

/// Reads a tab label back into its numeric form.
pub fn parse_tab_label(s: &str) -> (r: Option<u64>)
    ensures
        r == spec_parse_tab_label(s@),
{
    let v = to_chars(s);
    if v.len() < 4 {
        return None;
    }
    if !(v[0] == 't' && v[1] == 'a' && v[2] == 'b' && v[3] == '-') {
        return None;
    }
    match parse_u64_chars(&v, 4) {
        Some((n, j)) => {
            if j == v.len() {
                proof {
                    assert(v@.skip(j as int).len() == 0);
                }
                Some(n)
            } else {
                proof {
                    assert(v@.skip(j as int).len() > 0);
                }
                None
            }
        },
        None => None,
    }
}

/// Reading a rendered label yields the tab it names: labels are faithful.
pub proof fn lemma_tab_label_round_trip(id: u64)
    ensures
        spec_parse_tab_label(spec_tab_label(id)) == Some(id),
{
    let s = spec_tab_label(id);
    crate::digits::lemma_digits_round_trip(id, Seq::<char>::empty());
    assert(s.skip(4) =~= spec_digits(id) + Seq::<char>::empty());
}

/// Freshly created tabs are found again: looking a pushed tab's label up
/// in the grown registry yields exactly that tab's URL, as long as the
/// label is new — which `create_tab` guarantees by drawing it from the
/// counter.
pub proof fn lemma_fresh_tab_url(s: Seq<TabV>, t: TabV)
    requires
        forall|i: int| 0 <= i < s.len() ==> (#[trigger] s[i].id) != t.id,
    ensures
        url_lookup(s.push(t), t.id) == Some(t.url),
    decreases s.len(),
{
    if s.len() == 0 {
        assert(s.push(t)[0] == t);
    } else {
        assert(s.push(t)[0] == s[0]);
        assert(s.push(t).drop_first() =~= s.drop_first().push(t));
        assert(forall|i: int|
            0 <= i < s.drop_first().len() ==> #[trigger] s.drop_first()[i] == s[i + 1]);
        lemma_fresh_tab_url(s.drop_first(), t);
    }
}

} // verus!
