//! The reader: its tabs, and what each key does to them.
use vstd::prelude::*;
use std::collections::HashSet;
use crate::line::{line_text, SpanView};
use crate::markdown::{
    heading_shown, headings_view, lemma_headings_lead_to_their_lines, render, EventView,
};
use crate::path::{paths_equal, same_path};
use crate::style::Theme;
use crate::search::lowercase;
use crate::tab::{matching_lines, next_index, prev_index, Tab};

verus! {

broadcast use vstd::std_specs::hash::group_hash_axioms;

/// A key on the keyboard, as far as the reader and the picker tell keys
/// apart.
#[derive(Clone, Copy, Debug, PartialEq, Eq, Structural)]
pub enum KeyCode {
    Char(char),
    Esc,
    Enter,
    Backspace,
    Tab,
    Up,
    Down,
    Other,
}

/// A key event: the key, whether Control was held, and whether the key went
/// down (other events, such as releases, do nothing).
#[derive(Clone, Copy, Debug, PartialEq, Eq, Structural)]
pub struct Key {
    pub code: KeyCode,
    pub ctrl: bool,
    pub press: bool,
}

/// What the reader asks its caller to do after a key.
#[derive(Clone, Copy, Debug, PartialEq, Eq, Structural)]
pub enum ReaderAction {
    /// Keep reading.
    Continue,
    /// Show the file picker in place of the reader.
    BackToPicker,
    /// Show the file picker to open another tab.
    OpenNewTab,
    Quit,
}

/// `a + b`, or `usize::MAX` where that is larger (`saturating_add`).
pub open spec fn sat_add(a: usize, b: usize) -> usize {
    if a + b > usize::MAX {
        usize::MAX
    } else {
        (a + b) as usize
    }
}

/// `a - b`, or 0 where that is negative (`saturating_sub`).
pub open spec fn sat_sub(a: usize, b: usize) -> usize {
    if a >= b {
        (a - b) as usize
    } else {
        0
    }
}

/// `u` shows the same document as `t`, in the same place on the screen.
pub open spec fn same_document(t: Tab, u: Tab) -> bool {
    &&& u.name == t.name
    &&& u.path == t.path
    &&& u.lines == t.lines
    &&& u.headings == t.headings
    &&& u.last_viewport_height == t.last_viewport_height
    &&& u.index_selected == t.index_selected
}

/// `u` is `t` with the search emptied, the search bar open (`open`) or not,
/// and the scroll position kept.
pub open spec fn search_cleared(t: Tab, u: Tab, open: bool) -> bool {
    &&& same_document(t, u)
    &&& u.scroll == t.scroll
    &&& u.search_mode == open
    &&& u.search_query@ == Seq::<char>::empty()
    &&& u.matches@ == Seq::<usize>::empty()
    &&& u.match_set@ == Set::<usize>::empty()
    &&& u.current_match == 0
}

/// `u` is `t` after a new search for `query`: the matching lines found, the
/// first of them current.
pub open spec fn searched(t: Tab, u: Tab, query: Seq<char>) -> bool {
    &&& same_document(t, u)
    &&& u.scroll == t.scroll
    &&& u.search_mode == t.search_mode
    &&& u.search_query@ == query
    &&& u.matches@ == matching_lines(crate::line::lines_view(t.lines@), lowercase(query))
    &&& u.wf()
    &&& u.current_match == 0
}

/// `u` is `t` moved to match `c` of its matches, scrolled to it.
pub open spec fn at_match(t: Tab, u: Tab, c: nat) -> bool {
    u == (Tab { current_match: c as usize, scroll: t.matches@[c as int], ..t })
}

/// What a key does to the active tab when neither the index nor the search
/// bar is open: scrolling by a line (`j`, `k`, arrows) or half a screen
/// (`d`, `u`), to the top (`g`) or past the bottom (`G`), opening the search
/// bar (`/`), moving to the next (`n`) or previous (`N`) match.
pub open spec fn reading_key(t: Tab, u: Tab, code: KeyCode) -> bool {
    match code {
        KeyCode::Char('j') | KeyCode::Down => u == (Tab { scroll: sat_add(t.scroll, 1), ..t }),
        KeyCode::Char('k') | KeyCode::Up => u == (Tab { scroll: sat_sub(t.scroll, 1), ..t }),
        KeyCode::Char('d') => u == (Tab {
            scroll: sat_add(t.scroll, t.last_viewport_height / 2),
            ..t
        }),
        KeyCode::Char('u') => u == (Tab {
            scroll: sat_sub(t.scroll, t.last_viewport_height / 2),
            ..t
        }),
        KeyCode::Char('g') => u == (Tab { scroll: 0, ..t }),
        KeyCode::Char('G') => u == (Tab { scroll: t.lines.len(), ..t }),
        KeyCode::Char('/') => search_cleared(t, u, true),
        KeyCode::Char('n') => if t.matches.len() > 0 {
            at_match(t, u, next_index(t.current_match as nat, t.matches.len() as nat))
        } else {
            u == t
        },
        KeyCode::Char('N') => if t.matches.len() > 0 {
            at_match(t, u, prev_index(t.current_match as nat, t.matches.len() as nat))
        } else {
            u == t
        },
        _ => u == t,
    }
}

/// What a key does to the active tab while its search bar is open: `Esc`
/// closes and empties the search, `Enter` closes the bar and jumps to the
/// current match, `Backspace` removes the last character of the query, a
/// character adds to it; the matches follow the query as it is typed.
pub open spec fn searching_key(t: Tab, u: Tab, code: KeyCode) -> bool {
    match code {
        KeyCode::Esc => search_cleared(t, u, false),
        KeyCode::Enter => if t.matches.len() > 0 && t.current_match < t.matches.len() {
            u == (Tab { search_mode: false, scroll: t.matches@[t.current_match as int], ..t })
        } else {
            u == (Tab { search_mode: false, ..t })
        },
        KeyCode::Backspace => {
            let q = if t.search_query@.len() > 0 {
                t.search_query@.drop_last()
            } else {
                t.search_query@
            };
            if q.len() == 0 {
                &&& same_document(t, u)
                &&& u.scroll == t.scroll
                &&& u.search_mode == t.search_mode
                &&& u.search_query@ == q
                &&& u.matches@ == Seq::<usize>::empty()
                &&& u.match_set@ == Set::<usize>::empty()
                &&& u.current_match == t.current_match
            } else {
                searched(t, u, q)
            }
        },
        KeyCode::Char(c) => searched(t, u, t.search_query@.push(c)),
        _ => u == t,
    }
}

/// All open documents and the state of the screens around them.
pub struct Reader {
    pub tabs: Vec<Tab>,
    /// The index of the tab on screen.
    pub active: usize,
    /// The help bar is shown in place of its hint.
    pub show_help: bool,
    /// The headings index is shown in place of the document.
    pub index_mode: bool,
}

impl Reader {
    /// The active tab is one of the tabs (the first where there are none),
    /// and every tab is well formed.
    pub open spec fn wf(&self) -> bool {
        &&& self.tabs.len() > 0 ==> self.active < self.tabs.len()
        &&& self.tabs.len() == 0 ==> self.active == 0
        &&& forall|i: int| 0 <= i < self.tabs.len() ==> (#[trigger] self.tabs@[i]).wf()
    }

    /// A reader with no tabs.
    pub fn new() -> (r: Reader)
        ensures
            r.wf(),
            r.tabs@ == Seq::<Tab>::empty(),
            r.active == 0,
            !r.show_help,
            !r.index_mode,
    {
        Reader { tabs: Vec::new(), active: 0, show_help: false, index_mode: false }
    }

    /// The index of the first tab of the file at `path` (the same path,
    /// compared component by component), if one is open.
    pub fn position_of(&self, path: &str) -> (r: Option<usize>)
        ensures
            r matches Some(i) ==> i < self.tabs.len() && same_path(self.tabs@[i as int].path@, path@)
                && forall|j: int| 0 <= j < i ==> !same_path(self.tabs@[j].path@, path@),
            r is None ==> forall|j: int| 0 <= j < self.tabs.len() ==> !same_path(self.tabs@[j].path@, path@),
    {
        let mut i: usize = 0;
        while i < self.tabs.len()
            invariant
                i <= self.tabs.len(),
                forall|j: int| 0 <= j < i ==> !same_path(self.tabs@[j].path@, path@),
            decreases self.tabs.len() - i,
        {
            if paths_equal(self.tabs[i].path.as_str(), path) {
                return Some(i);
            }
            i = i + 1;
        }
        None
    }

    /// Switches to the tab of the file at `path` if one is open, and says
    /// whether one was.
    pub fn switch_to_open(&mut self, path: &str) -> (found: bool)
        requires
            old(self).wf(),
        ensures
            final(self).wf(),
            found == exists|j: int| 0 <= j < old(self).tabs.len() && same_path(old(self).tabs@[j].path@, path@),
            found ==> *final(self) == (Reader { active: final(self).active, ..*old(self) })
                && same_path(final(self).tabs@[final(self).active as int].path@, path@)
                && forall|j: int| 0 <= j < final(self).active ==> !same_path(old(self).tabs@[j].path@, path@),
            !found ==> *final(self) == *old(self),
    {
        match self.position_of(path) {
            Some(i) => {
                self.active = i;
                true
            },
            None => false,
        }
    }

    /// Adds a tab and makes it the active one.
    pub fn push_tab(&mut self, tab: Tab)
        requires
            old(self).wf(),
            tab.wf(),
        ensures
            final(self).wf(),
            final(self).tabs@ == old(self).tabs@.push(tab),
            final(self).active == old(self).tabs.len(),
            *final(self) == (Reader { tabs: final(self).tabs, active: final(self).active, ..*old(self) }),
    {
        self.tabs.push(tab);
        self.active = self.tabs.len() - 1;
    }

    /// Closes the active tab; the tab after it becomes active, or the one
    /// before it where it was the last.
    pub fn close_active(&mut self)
        requires
            old(self).wf(),
        ensures
            final(self).wf(),
            old(self).tabs.len() == 0 ==> *final(self) == *old(self),
            old(self).tabs.len() > 0 ==> final(self).tabs@ == old(self).tabs@.remove(
                old(self).active as int,
            ) && final(self).active == (if old(self).active >= final(self).tabs.len()
                && old(self).active > 0 {
                old(self).active - 1
            } else {
                old(self).active as int
            }),
            *final(self) == (Reader { tabs: final(self).tabs, active: final(self).active, ..*old(self) }),
    {
        if self.tabs.len() > 0 {
            let ghost before = self.tabs@;
            self.tabs.remove(self.active);
            if self.active >= self.tabs.len() && self.active > 0 {
                self.active = self.active - 1;
            }
            assert forall|i: int| 0 <= i < self.tabs.len() implies (#[trigger] self.tabs@[i]).wf() by {
                if i < old(self).active {
                    assert(self.tabs@[i] == before[i]);
                } else {
                    assert(self.tabs@[i] == before[i + 1]);
                }
            }
        }
    }

    /// Makes the next tab active, after the last one the first.
    pub fn next_tab(&mut self)
        requires
            old(self).wf(),
        ensures
            final(self).wf(),
            old(self).tabs.len() > 0 ==> final(self).active == next_index(
                old(self).active as nat,
                old(self).tabs.len() as nat,
            ),
            *final(self) == (Reader { active: final(self).active, ..*old(self) }),
            old(self).tabs.len() == 0 ==> final(self).active == old(self).active,
    {
        if self.tabs.len() > 0 {
            self.active = (self.active + 1) % self.tabs.len();
        }
    }

    /// Makes the previous tab active, before the first one the last.
    pub fn prev_tab(&mut self)
        requires
            old(self).wf(),
        ensures
            final(self).wf(),
            old(self).tabs.len() > 0 ==> final(self).active == prev_index(
                old(self).active as nat,
                old(self).tabs.len() as nat,
            ),
            *final(self) == (Reader { active: final(self).active, ..*old(self) }),
            old(self).tabs.len() == 0 ==> final(self).active == old(self).active,
    {
        if self.tabs.len() > 0 {
            self.active = if self.active == 0 {
                self.tabs.len() - 1
            } else {
                self.active - 1
            };
        }
    }
}

/// `min(a, b)`.
pub open spec fn min(a: int, b: int) -> int {
    if a <= b {
        a
    } else {
        b
    }
}

/// `n` is `o` with only its active tab changed, to `t`.
pub open spec fn active_tab_becomes(o: Reader, n: Reader, t: Tab) -> bool {
    &&& n == (Reader { tabs: n.tabs, ..o })
    &&& n.tabs@ == o.tabs@.update(o.active as int, t)
}

/// What a key does to the reader, and what the reader then asks of its
/// caller. In the headings index: `j`/`k` (or the arrows), `g`/`G` move the
/// selection, which belongs to the active tab and stays as it is while the
/// index is closed and other tabs are read, `Enter` jumps to the selected heading, `Esc`/`Tab` close the
/// index, `q` quits. In the search bar: see `searching_key`. Otherwise:
/// `q` quits, `Backspace` goes back to the picker, `Ctrl+T` opens the picker
/// for a new tab, `?` toggles the help, `h`/`l` switch tabs, `Tab` opens the
/// index, `w` closes the tab (back to the picker after the last), and the
/// other keys act on the document (see `reading_key`).
pub open spec fn key_effect(o: Reader, n: Reader, key: Key, act: ReaderAction) -> bool {
    let a = o.active as int;
    let t = o.tabs@[a];
    let count = t.headings.len();
    let sel = t.index_selected;
    if !key.press {
        n == o && act == ReaderAction::Continue
    } else if o.index_mode {
        match key.code {
            KeyCode::Esc | KeyCode::Tab => n == (Reader { index_mode: false, ..o })
                && act == ReaderAction::Continue,
            KeyCode::Char('q') => n == o && act == ReaderAction::Quit,
            KeyCode::Char('j') | KeyCode::Down => act == ReaderAction::Continue && active_tab_becomes(
                o,
                n,
                Tab {
                    index_selected: if count > 0 {
                        min(sel + 1, count - 1) as usize
                    } else {
                        sel
                    },
                    ..t
                },
            ),
            KeyCode::Char('k') | KeyCode::Up => act == ReaderAction::Continue && active_tab_becomes(
                o,
                n,
                Tab { index_selected: sat_sub(sel, 1), ..t },
            ),
            KeyCode::Char('g') => act == ReaderAction::Continue && active_tab_becomes(
                o,
                n,
                Tab { index_selected: 0, ..t },
            ),
            KeyCode::Char('G') => act == ReaderAction::Continue && active_tab_becomes(
                o,
                n,
                Tab { index_selected: sat_sub(count, 1), ..t },
            ),
            KeyCode::Enter => act == ReaderAction::Continue && if sel < count {
                &&& n == (Reader { tabs: n.tabs, index_mode: false, ..o })
                &&& n.tabs@ == o.tabs@.update(
                    a,
                    Tab { scroll: t.headings@[sel as int].line_index, ..t },
                )
            } else {
                n == (Reader { index_mode: false, ..o })
            },
            _ => n == o && act == ReaderAction::Continue,
        }
    } else if t.search_mode {
        act == ReaderAction::Continue && active_tab_becomes(o, n, n.tabs@[a]) && searching_key(
            t,
            n.tabs@[a],
            key.code,
        )
    } else if key.code == KeyCode::Char('t') && key.ctrl {
        n == o && act == ReaderAction::OpenNewTab
    } else {
        match key.code {
            KeyCode::Char('q') => n == o && act == ReaderAction::Quit,
            KeyCode::Backspace => n == o && act == ReaderAction::BackToPicker,
            KeyCode::Char('?') => n == (Reader { show_help: !o.show_help, ..o })
                && act == ReaderAction::Continue,
            KeyCode::Char('h') => n == (Reader {
                active: prev_index(o.active as nat, o.tabs.len() as nat) as usize,
                ..o
            }) && act == ReaderAction::Continue,
            KeyCode::Char('l') => n == (Reader {
                active: next_index(o.active as nat, o.tabs.len() as nat) as usize,
                ..o
            }) && act == ReaderAction::Continue,
            KeyCode::Tab => n == (Reader { index_mode: true, ..o })
                && act == ReaderAction::Continue,
            KeyCode::Char('w') => {
                &&& n == (Reader { tabs: n.tabs, active: n.active, ..o })
                &&& n.tabs@ == o.tabs@.remove(a)
                &&& n.active == (if o.active >= n.tabs.len() && o.active > 0 {
                    o.active - 1
                } else {
                    o.active as int
                })
                &&& act == if n.tabs.len() == 0 {
                    ReaderAction::BackToPicker
                } else {
                    ReaderAction::Continue
                }
            },
            _ => act == ReaderAction::Continue && active_tab_becomes(o, n, n.tabs@[a])
                && reading_key(t, n.tabs@[a], key.code),
        }
    }
}

impl Tab {
    /// Applies a key pressed while the search bar is open (see
    /// `searching_key`).
    pub fn search_key(&mut self, code: KeyCode)
        requires
            old(self).wf(),
        ensures
            final(self).wf(),
            searching_key(*old(self), *final(self), code),
    {
        match code {
            KeyCode::Esc => {
                self.search_mode = false;
                self.search_query = String::new();
                self.matches.clear();
                self.match_set.clear();
                self.current_match = 0;
                assert(self.matches@.to_set() =~= Set::<usize>::empty());
            },
            KeyCode::Enter => {
                self.search_mode = false;
                if self.matches.len() > 0 {
                    self.jump_to_current_match();
                }
            },
            KeyCode::Backspace => {
                crate::text::pop_last_char(&mut self.search_query);
                if self.search_query.as_str().unicode_len() == 0 {
                    self.matches.clear();
                    self.match_set.clear();
                    assert(self.matches@.to_set() =~= Set::<usize>::empty());
                } else {
                    self.update_matches();
                }
            },
            KeyCode::Char(c) => {
                crate::text::push_char(&mut self.search_query, c);
                self.update_matches();
            },
            _ => {},
        }
    }

    /// Applies a key pressed while reading (see `reading_key`).
    pub fn reading_key(&mut self, code: KeyCode)
        requires
            old(self).wf(),
        ensures
            final(self).wf(),
            reading_key(*old(self), *final(self), code),
    {
        match code {
            KeyCode::Char('j') | KeyCode::Down => self.scroll_down(1),
            KeyCode::Char('k') | KeyCode::Up => self.scroll_up(1),
            KeyCode::Char('d') => {
                let h = self.last_viewport_height / 2;
                self.scroll_down(h);
            },
            KeyCode::Char('u') => {
                let h = self.last_viewport_height / 2;
                self.scroll_up(h);
            },
            KeyCode::Char('g') => self.scroll = 0,
            KeyCode::Char('G') => self.scroll = self.lines.len(),
            KeyCode::Char('/') => {
                self.search_mode = true;
                self.search_query = String::new();
                self.matches.clear();
                self.match_set.clear();
                self.current_match = 0;
                assert(self.matches@.to_set() =~= Set::<usize>::empty());
            },
            KeyCode::Char('n') => self.next_match(),
            KeyCode::Char('N') => self.prev_match(),
            _ => {},
        }
    }
}

impl Reader {
    /// Applies a key to the reader (see `key_effect`) and says what the
    /// caller is to do next.
    pub fn handle_key(&mut self, key: Key) -> (act: ReaderAction)
        requires
            old(self).wf(),
            old(self).tabs.len() > 0,
        ensures
            final(self).wf(),
            key_effect(*old(self), *final(self), key, act),
    {
        if !key.press {
            return ReaderAction::Continue;
        }
        let a = self.active;
        if self.index_mode {
            let count = self.tabs[a].headings.len();
            match key.code {
                KeyCode::Esc | KeyCode::Tab => {
                    self.index_mode = false;
                },
                KeyCode::Char('q') => {
                    return ReaderAction::Quit;
                },
                KeyCode::Char('j') | KeyCode::Down => {
                    if count > 0 {
                        let sel = self.tabs[a].index_selected;
                        self.tabs[a].index_selected = if sel < count - 1 {
                            sel + 1
                        } else {
                            count - 1
                        };
                    }
                },
                KeyCode::Char('k') | KeyCode::Up => {
                    let sel = self.tabs[a].index_selected;
                    self.tabs[a].index_selected = sel.saturating_sub(1);
                },
                KeyCode::Char('g') => {
                    self.tabs[a].index_selected = 0;
                },
                KeyCode::Char('G') => {
                    self.tabs[a].index_selected = count.saturating_sub(1);
                },
                KeyCode::Enter => {
                    let sel = self.tabs[a].index_selected;
                    if sel < count {
                        let line = self.tabs[a].headings[sel].line_index;
                        self.tabs[a].scroll = line;
                    }
                    self.index_mode = false;
                },
                _ => {},
            }
            proof {
                assert(self.tabs@ =~= old(self).tabs@.update(a as int, self.tabs@[a as int]));
            }
            ReaderAction::Continue
        } else if self.tabs[a].search_mode {
            self.tabs[a].search_key(key.code);
            ReaderAction::Continue
        } else if key.code == KeyCode::Char('t') && key.ctrl {
            ReaderAction::OpenNewTab
        } else {
            match key.code {
                KeyCode::Char('q') => ReaderAction::Quit,
                KeyCode::Backspace => ReaderAction::BackToPicker,
                KeyCode::Char('?') => {
                    self.show_help = !self.show_help;
                    ReaderAction::Continue
                },
                KeyCode::Char('h') => {
                    self.prev_tab();
                    ReaderAction::Continue
                },
                KeyCode::Char('l') => {
                    self.next_tab();
                    ReaderAction::Continue
                },
                KeyCode::Tab => {
                    self.index_mode = true;
                    ReaderAction::Continue
                },
                KeyCode::Char('w') => {
                    self.close_active();
                    if self.tabs.len() == 0 {
                        ReaderAction::BackToPicker
                    } else {
                        ReaderAction::Continue
                    }
                },
                _ => {
                    self.tabs[a].reading_key(key.code);
                    ReaderAction::Continue
                },
            }
        }
    }
}

/// Tabs are independent: switching to the next tab (`l`) and back (`h`)
/// leaves the reader exactly as it was, every tab's scroll position, search,
/// matches and headings-index selection included, provided the tab switched to has no open search bar
/// (which would take the `h` as text).
pub proof fn lemma_switch_tabs_and_back(o: Reader, n1: Reader, n2: Reader, act1: ReaderAction, act2: ReaderAction)
    requires
        o.wf(),
        o.tabs.len() > 0,
        !o.index_mode,
        !o.tabs@[o.active as int].search_mode,
        key_effect(o, n1, Key { code: KeyCode::Char('l'), ctrl: false, press: true }, act1),
        !n1.tabs@[n1.active as int].search_mode,
        key_effect(n1, n2, Key { code: KeyCode::Char('h'), ctrl: false, press: true }, act2),
    ensures
        n2 == o,
        act1 == ReaderAction::Continue,
        act2 == ReaderAction::Continue,
{
    crate::tab::lemma_next_prev_undo(o.active as nat, o.tabs.len() as nat);
}

/// `Enter` in the headings index jumps to the selected section: the index
/// closes and the tab is scrolled so that its first line on the screen is
/// the one that shows the selected heading, for a tab that holds a rendered
/// document (as `Tab::new` makes it).
pub proof fn lemma_index_enter_shows_heading(
    o: Reader,
    n: Reader,
    act: ReaderAction,
    events: Seq<EventView>,
    theme: Theme,
    width: u16,
)
    requires
        o.wf(),
        o.tabs.len() > 0,
        o.index_mode,
        o.tabs@[o.active as int].index_selected < o.tabs@[o.active as int].headings.len(),
        (o.tabs@[o.active as int].lines_view(), headings_view(o.tabs@[o.active as int].headings@))
            == render(events, theme, width),
        key_effect(o, n, Key { code: KeyCode::Enter, ctrl: false, press: true }, act),
    ensures
        !n.index_mode,
        n.active == o.active,
        act == ReaderAction::Continue,
        n.tabs@[n.active as int].scroll < n.tabs@[n.active as int].lines.len(),
        line_text(n.tabs@[n.active as int].lines_view()[n.tabs@[n.active as int].scroll as int])
            == heading_shown(
                headings_view(o.tabs@[o.active as int].headings@)[o.tabs@[o.active as int].index_selected as int],
            ),
{
    let t = o.tabs@[o.active as int];
    assert(t.lines_view().len() == t.lines.len());
    lemma_headings_lead_to_their_lines(events, theme, width);
    let hv = headings_view(t.headings@);
    assert(hv[t.index_selected as int] == t.headings@[t.index_selected as int]@);
}

/// `n` then `N` (and `N` then `n`) come back to the same match: the tab is
/// as it was, scrolled to that match.
pub proof fn lemma_next_then_prev_match(t: Tab, u: Tab, v: Tab, first: char)
    requires
        t.wf(),
        t.matches.len() > 0,
        first == 'n' || first == 'N',
        reading_key(t, u, KeyCode::Char(first)),
        reading_key(u, v, KeyCode::Char(if first == 'n' { 'N' } else { 'n' })),
    ensures
        v == (Tab { scroll: t.matches@[t.current_match as int], ..t }),
{
    crate::tab::lemma_next_prev_undo(t.current_match as nat, t.matches.len() as nat);
}

/// Each tab keeps its own headings-index selection: reading the next tab
/// (`l`), coming back (`h`) and opening the index (`Tab`) shows the index
/// with the selection the tab had, everything else unchanged.
pub proof fn lemma_index_selection_kept_per_tab(
    o: Reader,
    n1: Reader,
    n2: Reader,
    n3: Reader,
    a1: ReaderAction,
    a2: ReaderAction,
    a3: ReaderAction,
)
    requires
        o.wf(),
        o.tabs.len() > 0,
        !o.index_mode,
        !o.tabs@[o.active as int].search_mode,
        key_effect(o, n1, Key { code: KeyCode::Char('l'), ctrl: false, press: true }, a1),
        !n1.tabs@[n1.active as int].search_mode,
        key_effect(n1, n2, Key { code: KeyCode::Char('h'), ctrl: false, press: true }, a2),
        key_effect(n2, n3, Key { code: KeyCode::Tab, ctrl: false, press: true }, a3),
    ensures
        n3 == (Reader { index_mode: true, ..o }),
        n3.tabs@[n3.active as int].index_selected == o.tabs@[o.active as int].index_selected,
{
    lemma_switch_tabs_and_back(o, n1, n2, a1, a2);
}

// ---------------------------------------------------------------------------
// Which screen comes next

/// The screen the program shows next, or the end of the program.
#[derive(Clone, Copy, Debug, PartialEq, Eq, Structural)]
pub enum Screen {
    Picker,
    Reader,
    Done,
}

/// The screen to show when the reader has no pending action: the reader
/// while a tab is open, else the picker where there are files to pick,
/// else none (at start-up, nothing to show at all).
pub fn next_screen(tabs_open: bool, has_files: bool) -> (s: Screen)
    ensures
        s == (if tabs_open {
            Screen::Reader
        } else if has_files {
            Screen::Picker
        } else {
            Screen::Done
        }),
{
    if tabs_open {
        Screen::Reader
    } else if has_files {
        Screen::Picker
    } else {
        Screen::Done
    }
}

/// The screen after the reader asked for `act`: quitting ends the program;
/// going back to the picker ends it where there are no files to pick, and
/// otherwise shows the picker once no tab is open; opening a new tab shows
/// the picker where there are files, else the reader again.
pub fn after_reader(act: ReaderAction, tabs_open: bool, has_files: bool) -> (s: Screen)
    ensures
        s == (match act {
            ReaderAction::Quit => Screen::Done,
            ReaderAction::BackToPicker => if !has_files {
                Screen::Done
            } else if tabs_open {
                Screen::Reader
            } else {
                Screen::Picker
            },
            ReaderAction::OpenNewTab => if has_files {
                Screen::Picker
            } else {
                Screen::Reader
            },
            ReaderAction::Continue => Screen::Reader,
        }),
{
    match act {
        ReaderAction::Quit => Screen::Done,
        ReaderAction::BackToPicker => if !has_files {
            Screen::Done
        } else {
            next_screen(tabs_open, has_files)
        },
        ReaderAction::OpenNewTab => if has_files {
            Screen::Picker
        } else {
            Screen::Reader
        },
        ReaderAction::Continue => Screen::Reader,
    }
}

/// `w` closes the tab on screen: the other tabs stay, in order, the ones
/// after it moving up by one; the tab after it comes on screen, or the one
/// before it where it was the last; the program goes back to the picker
/// only when no tab is left.
pub proof fn lemma_w_closes_the_tab_on_screen(o: Reader, n: Reader, act: ReaderAction)
    requires
        o.wf(),
        o.tabs.len() > 0,
        !o.index_mode,
        !o.tabs@[o.active as int].search_mode,
        key_effect(o, n, Key { code: KeyCode::Char('w'), ctrl: false, press: true }, act),
    ensures
        n.tabs.len() == o.tabs.len() - 1,
        forall|j: int| 0 <= j < o.active ==> n.tabs@[j] == o.tabs@[j],
        forall|j: int| o.active <= j < n.tabs.len() ==> n.tabs@[j] == o.tabs@[j + 1],
        n.tabs.len() > 0 ==> n.tabs@[n.active as int] == (if o.active + 1 < o.tabs.len() {
            o.tabs@[o.active + 1]
        } else {
            o.tabs@[o.active - 1]
        }),
        act == (if n.tabs.len() == 0 {
            ReaderAction::BackToPicker
        } else {
            ReaderAction::Continue
        }),
        n.show_help == o.show_help,
        !n.index_mode,
{
}

} // verus!
