//! A tab of the reader: a rendered document with its scroll position and its
//! search.
use vstd::prelude::*;
use std::collections::HashSet;
use crate::line::{line_text, lines_view, SpanView, StyledLine};
use crate::markdown::{heading_levels_in_range, headings_view, render, Heading};
use crate::parse::{markdown_events, parse};
use crate::search::{contains, contains_chars, lowercase, to_lowercase};
use crate::style::Theme;
use crate::text::{ascii_lower, chars_of, is_ascii_text};
use crate::path::{file_name, path_file_name};

verus! {

broadcast use vstd::std_specs::hash::group_hash_axioms;

/// The name of the tab of the file at `path`: its file name, or the whole
/// path where it has none.
pub open spec fn tab_name(path: Seq<char>) -> Seq<char> {
    match path_file_name(path) {
        Some(n) => n,
        None => path,
    }
}

/// A line of text matches the lower-case query `q`: its text in lower case
/// contains `q`.
pub open spec fn line_matches(line: Seq<SpanView>, q: Seq<char>) -> bool {
    contains(lowercase(line_text(line)), q)
}

/// The indices of the lines that match the lower-case query `q`, in order.
pub open spec fn matching_lines(lines: Seq<Seq<SpanView>>, q: Seq<char>) -> Seq<usize>
    decreases lines.len(),
{
    if lines.len() == 0 {
        Seq::empty()
    } else {
        let m = matching_lines(lines.drop_last(), q);
        if line_matches(lines.last(), q) {
            m.push((lines.len() - 1) as usize)
        } else {
            m
        }
    }
}

/// One open document.
pub struct Tab {
    /// The name shown in the tab bar.
    pub name: String,
    /// The path the document was read from.
    pub path: String,
    /// The rendered lines.
    pub lines: Vec<StyledLine>,
    /// The headings, with the lines that show them.
    pub headings: Vec<Heading>,
    /// The index of the first line on the screen.
    pub scroll: usize,
    /// The height of the screen area when the tab was last drawn.
    pub last_viewport_height: usize,
    /// The search bar is open.
    pub search_mode: bool,
    pub search_query: String,
    /// The lines that match the search, as a set.
    pub match_set: HashSet<usize>,
    /// The lines that match the search, in order.
    pub matches: Vec<usize>,
    /// The position in `matches` of the current match.
    pub current_match: usize,
    /// The heading selected in the headings index of this document.
    pub index_selected: usize,
}

/// The match after `c` among `n` matches, wrapping to the first.
pub open spec fn next_index(c: nat, n: nat) -> nat {
    (c + 1) % n
}

/// The match before `c` among `n` matches, wrapping to the last.
pub open spec fn prev_index(c: nat, n: nat) -> nat {
    if c == 0 {
        (n - 1) as nat
    } else {
        (c - 1) as nat
    }
}

impl Tab {
    /// The view of the rendered lines.
    pub open spec fn lines_view(&self) -> Seq<Seq<SpanView>> {
        lines_view(self.lines@)
    }

    /// The set of matching lines holds exactly the lines of the list of
    /// matches, and the current match, if there are matches, is one of them.
    pub open spec fn wf(&self) -> bool {
        &&& self.match_set@ == self.matches@.to_set()
        &&& self.matches.len() > 0 ==> self.current_match < self.matches.len()
    }

    /// A tab showing the markdown text `content` of the file at `path`,
    /// rendered for a screen `width` columns wide, scrolled to the top, with
    /// no search.
    pub fn new(path: String, content: &str, theme: &Theme, width: u16) -> (t: Tab)
        ensures
            t.wf(),
            t.name@ == tab_name(path@),
            t.path@ == path@,
            (t.lines_view(), headings_view(t.headings@)) == render(
                markdown_events(content@),
                *theme,
                width,
            ),
            heading_levels_in_range(headings_view(t.headings@)),
            t.scroll == 0,
            t.last_viewport_height == 24,
            !t.search_mode,
            t.search_query@ == Seq::<char>::empty(),
            t.matches@ == Seq::<usize>::empty(),
            t.current_match == 0,
            t.index_selected == 0,
    {
        let name = match file_name(path.as_str()) {
            Some(n) => n,
            None => path.clone(),
        };
        let (lines, headings) = parse(content, theme, width);
        let t = Tab {
            name,
            path,
            lines,
            headings,
            scroll: 0,
            last_viewport_height: 24,
            search_mode: false,
            search_query: String::new(),
            match_set: HashSet::new(),
            matches: Vec::new(),
            current_match: 0,
            index_selected: 0,
        };
        assert(t.matches@.to_set() =~= Set::<usize>::empty());
        t
    }

    /// Scrolls down by `amount` lines (saturating).
    pub fn scroll_down(&mut self, amount: usize)
        ensures
            final(self).scroll == if old(self).scroll + amount > usize::MAX {
                usize::MAX as int
            } else {
                old(self).scroll + amount
            },
            *final(self) == (Tab { scroll: final(self).scroll, ..*old(self) }),
    {
        self.scroll = self.scroll.saturating_add(amount);
    }

    /// Scrolls up by `amount` lines, stopping at the top.
    pub fn scroll_up(&mut self, amount: usize)
        ensures
            final(self).scroll == if old(self).scroll >= amount {
                old(self).scroll - amount
            } else {
                0
            },
            *final(self) == (Tab { scroll: final(self).scroll, ..*old(self) }),
    {
        self.scroll = self.scroll.saturating_sub(amount);
    }

    /// Records the height of the screen area and keeps the scroll position
    /// where a full screen of lines, or all of them, still show.
    pub fn clamp_scroll(&mut self, viewport_height: usize)
        ensures
            final(self).last_viewport_height == viewport_height,
            final(self).scroll == if old(self).scroll as int <= old(self).lines.len() - viewport_height {
                old(self).scroll as int
            } else if old(self).lines.len() >= viewport_height {
                old(self).lines.len() - viewport_height
            } else {
                0
            },
            *final(self) == (Tab {
                scroll: final(self).scroll,
                last_viewport_height: viewport_height,
                ..*old(self)
            }),
    {
        self.last_viewport_height = viewport_height;
        let max = self.lines.len().saturating_sub(viewport_height);
        if self.scroll > max {
            self.scroll = max;
        }
    }

    /// Finds the lines that match the search query, case-insensitively, and
    /// makes the first of them the current match.
    pub fn update_matches(&mut self)
        ensures
            final(self).wf(),
            final(self).matches@ == matching_lines(
                old(self).lines_view(),
                lowercase(old(self).search_query@),
            ),
            final(self).current_match == 0,
            is_ascii_text(old(self).search_query@) ==> lowercase(old(self).search_query@)
                == old(self).search_query@.map_values(|c: char| ascii_lower(c)),
            *final(self) == (Tab {
                matches: final(self).matches,
                match_set: final(self).match_set,
                current_match: 0,
                ..*old(self)
            }),
    {
        let query = to_lowercase(self.search_query.as_str());
        let q = chars_of(query.as_str());
        let mut matches: Vec<usize> = Vec::new();
        let mut set: HashSet<usize> = HashSet::new();
        let ghost lv = self.lines_view();
        let mut i: usize = 0;
        assert(lv.take(0) =~= Seq::<Seq<SpanView>>::empty());
        while i < self.lines.len()
            invariant
                i <= self.lines.len(),
                lv == lines_view(self.lines@),
                q@ == lowercase(self.search_query@),
                matches@ == matching_lines(lv.take(i as int), q@),
                set@ == matches@.to_set(),
            decreases self.lines.len() - i,
        {
            let text = self.lines[i].text();
            let lower = to_lowercase(text.as_str());
            let lc = chars_of(lower.as_str());
            let hit = contains_chars(&lc, &q);
            proof {
                assert(lv.take(i + 1).drop_last() =~= lv.take(i as int));
                assert(lv.take(i + 1).last() == lv[i as int]);
            }
            if hit {
                let ghost old_m = matches@;
                matches.push(i);
                set.insert(i);
                proof {
                    old_m.lemma_push_to_set_commute(i);
                }
            }
            i = i + 1;
        }
        assert(lv.take(self.lines.len() as int) =~= lv);
        self.matches = matches;
        self.match_set = set;
        self.current_match = 0;
    }

    /// Scrolls to the current match, if there is one.
    pub fn jump_to_current_match(&mut self)
        ensures
            old(self).current_match < old(self).matches.len() ==> final(self).scroll == old(
                self,
            ).matches@[old(self).current_match as int],
            old(self).current_match >= old(self).matches.len() ==> final(self).scroll == old(
                self,
            ).scroll,
            *final(self) == (Tab { scroll: final(self).scroll, ..*old(self) }),
    {
        if self.current_match < self.matches.len() {
            self.scroll = self.matches[self.current_match];
        }
    }

    /// Moves to the next match, after the last one back to the first, and
    /// scrolls to it.
    pub fn next_match(&mut self)
        requires
            old(self).wf(),
        ensures
            final(self).wf(),
            old(self).matches.len() == 0 ==> *final(self) == *old(self),
            old(self).matches.len() > 0 ==> final(self).current_match == next_index(
                old(self).current_match as nat,
                old(self).matches.len() as nat,
            ) && final(self).scroll == final(self).matches@[final(self).current_match as int],
            *final(self) == (Tab {
                scroll: final(self).scroll,
                current_match: final(self).current_match,
                ..*old(self)
            }),
    {
        if self.matches.len() > 0 {
            self.current_match = (self.current_match + 1) % self.matches.len();
            self.jump_to_current_match();
        }
    }

    /// Moves to the previous match, before the first one to the last, and
    /// scrolls to it.
    pub fn prev_match(&mut self)
        requires
            old(self).wf(),
        ensures
            final(self).wf(),
            old(self).matches.len() == 0 ==> *final(self) == *old(self),
            old(self).matches.len() > 0 ==> final(self).current_match == prev_index(
                old(self).current_match as nat,
                old(self).matches.len() as nat,
            ) && final(self).scroll == final(self).matches@[final(self).current_match as int],
            *final(self) == (Tab {
                scroll: final(self).scroll,
                current_match: final(self).current_match,
                ..*old(self)
            }),
    {
        if self.matches.len() > 0 {
            self.current_match = if self.current_match == 0 {
                self.matches.len() - 1
            } else {
                self.current_match - 1
            };
            self.jump_to_current_match();
        }
    }
}

// ---------------------------------------------------------------------------
// Laws of search

/// The search finds exactly the matching lines, each once, top to bottom:
/// a line is listed if and only if its text contains the query (ignoring
/// case), and the list is strictly ascending. (A document of more lines than
/// `usize` counts is out of reach.)
pub proof fn lemma_matches_are_the_matching_lines(lines: Seq<Seq<SpanView>>, q: Seq<char>)
    requires
        lines.len() <= usize::MAX,
    ensures
        forall|i: int|
            0 <= i < lines.len() ==> (matching_lines(lines, q).contains(i as usize) <==> line_matches(
                lines[i],
                q,
            )),
        forall|k: int|
            0 <= k < matching_lines(lines, q).len() ==> (#[trigger] matching_lines(lines, q)[k])
                < lines.len(),
        forall|j: int, k: int|
            0 <= j < k < matching_lines(lines, q).len() ==> (#[trigger] matching_lines(lines, q)[j])
                < (#[trigger] matching_lines(lines, q)[k]),
    decreases lines.len(),
{
    if lines.len() > 0 {
        let prev = lines.drop_last();
        lemma_matches_are_the_matching_lines(prev, q);
        let m = matching_lines(lines, q);
        let pm = matching_lines(prev, q);
        assert forall|i: int| 0 <= i < lines.len() implies (m.contains(i as usize) <==> line_matches(
            lines[i],
            q,
        )) by {
            if i < lines.len() - 1 {
                assert(prev[i] == lines[i]);
                if m.contains(i as usize) && !pm.contains(i as usize) {
                    let k = choose|k: int| 0 <= k < m.len() && m[k] == i as usize;
                    assert(k == m.len() - 1);
                }
                if pm.contains(i as usize) {
                    let k = choose|k: int| 0 <= k < pm.len() && pm[k] == i as usize;
                    assert(m[k] == i as usize);
                }
            } else {
                if line_matches(lines[i], q) {
                    assert(m[m.len() - 1] == i as usize);
                } else {
                    if m.contains(i as usize) {
                        let k = choose|k: int| 0 <= k < m.len() && m[k] == i as usize;
                        assert(pm[k] < prev.len());
                    }
                }
            }
        }
    }
}

/// Moving to the next match and back to the previous one returns to the
/// same match, and so does the reverse: `n` and `N` undo each other.
pub proof fn lemma_next_prev_undo(c: nat, n: nat)
    requires
        c < n,
    ensures
        prev_index(next_index(c, n), n) == c,
        next_index(prev_index(c, n), n) == c,
        next_index(c, n) < n,
        prev_index(c, n) < n,
{
    if c + 1 < n {
        assert((c + 1) % n == c + 1) by {
            vstd::arithmetic::div_mod::lemma_small_mod((c + 1) as nat, n);
        }
    } else {
        assert((c + 1) % n == 0) by {
            vstd::arithmetic::div_mod::lemma_mod_self_0(n as int);
        }
    }
    if c == 0 {
        assert(((n - 1) + 1) as nat % n == 0) by {
            vstd::arithmetic::div_mod::lemma_mod_self_0(n as int);
        }
    } else {
        assert(c % n == c) by {
            vstd::arithmetic::div_mod::lemma_small_mod(c, n);
        }
    }
}

/// The search looks at whole lines: a line is found exactly when its whole
/// text, all its spans joined and lower-cased, contains the lower-cased
/// query somewhere (`contains`: it occurs at some position). (A document of more lines than `usize` counts is out of
/// reach.)
pub proof fn lemma_search_looks_at_whole_lines(lines: Seq<Seq<SpanView>>, query: Seq<char>)
    requires
        lines.len() <= usize::MAX,
    ensures
        forall|i: int|
            0 <= i < lines.len() ==> (matching_lines(lines, lowercase(query)).contains(i as usize)
                <==> contains(lowercase(line_text(#[trigger] lines[i])), lowercase(query))),
{
    lemma_matches_are_the_matching_lines(lines, lowercase(query));
}

} // verus!
