//! The file picker: fuzzy filtering of the markdown files, the selection,
//! and the lines that show the list.
use vstd::prelude::*;
use std::collections::HashSet;
use fuzzy_matcher::skim::SkimMatcherV2;
use fuzzy_matcher::FuzzyMatcher;
use crate::line::{append_spans, lines_view, push_line, push_span, span, spans_view, SpanView, StyledLine, StyledSpan};
use crate::reader::{Key, KeyCode};
use crate::style::{plain_style, Style, Theme};
use crate::text::{chars_of, push_char, push_str, str_byte_len, string_of, utf8_len};
use crate::markdown::str_len;
use crate::path::{file_name, parent, path_file_name, path_parent};

verus! {

broadcast use vstd::std_specs::hash::group_hash_axioms;

// ---------------------------------------------------------------------------
// Highlighting the matched characters of a name

/// The spans of the first `k` characters of `name`, and the run of unmatched
/// characters not yet emitted: each matched character is a span of its own
/// in `match_style`, each run of unmatched characters one span in `base`.
pub open spec fn matched_spans_upto(
    name: Seq<char>,
    matched: Set<usize>,
    base: Style,
    match_style: Style,
    k: nat,
) -> (Seq<SpanView>, Seq<char>)
    decreases k,
{
    if k == 0 {
        (Seq::empty(), Seq::empty())
    } else {
        let (spans, buf) = matched_spans_upto(name, matched, base, match_style, (k - 1) as nat);
        let c = name[k - 1];
        if matched.contains((k - 1) as usize) {
            let spans = if buf.len() > 0 {
                spans.push(span(buf, base))
            } else {
                spans
            };
            (spans.push(span(seq![c], match_style)), Seq::empty())
        } else {
            (spans, buf.push(c))
        }
    }
}

/// The spans of `name` with the characters at the positions in `matched`
/// drawn in `match_style` and the others in `base`.
pub open spec fn matched_spans(name: Seq<char>, matched: Set<usize>, base: Style, match_style: Style) -> Seq<
    SpanView,
> {
    let (spans, buf) = matched_spans_upto(name, matched, base, match_style, name.len());
    if buf.len() > 0 {
        spans.push(span(buf, base))
    } else {
        spans
    }
}

/// The spans of `name` with its characters at the positions in
/// `matched_indices` (counted in characters) drawn in `match_style` and the
/// runs of other characters in `base_style`.
pub fn styled_filename_with_matches(
    name: &str,
    matched_indices: &HashSet<usize>,
    base_style: Style,
    match_style: Style,
) -> (r: Vec<StyledSpan>)
    ensures
        spans_view(r@) == matched_spans(name@, matched_indices@, base_style, match_style),
{
    let cs = chars_of(name);
    let mut spans: Vec<StyledSpan> = Vec::new();
    let mut buf = String::new();
    let mut i: usize = 0;
    assert(spans_view(spans@) =~= Seq::<SpanView>::empty());
    while i < cs.len()
        invariant
            i <= cs.len(),
            cs@ == name@,
            (spans_view(spans@), buf@) == matched_spans_upto(
                name@,
                matched_indices@,
                base_style,
                match_style,
                i as nat,
            ),
        decreases cs.len() - i,
    {
        let ch = cs[i];
        if matched_indices.contains(&i) {
            if buf.as_str().unicode_len() > 0 {
                let mut run = String::new();
                std::mem::swap(&mut run, &mut buf);
                push_span(&mut spans, StyledSpan::styled(run, base_style));
            } else {
                buf = String::new();
            }
            let mut one = String::new();
            push_char(&mut one, ch);
            assert(one@ =~= seq![ch]);
            push_span(&mut spans, StyledSpan::styled(one, match_style));
        } else {
            push_char(&mut buf, ch);
        }
        i = i + 1;
    }
    if buf.as_str().unicode_len() > 0 {
        push_span(&mut spans, StyledSpan::styled(buf, base_style));
    }
    spans
}

// ---------------------------------------------------------------------------
// Filtering

/// The score and the matched character positions that
/// `SkimMatcherV2::default().fuzzy_indices(choice, pattern)` gives, or `None`
/// where `pattern` does not match `choice`.
pub uninterp spec fn skim_match(choice: Seq<char>, pattern: Seq<char>) -> Option<(i64, Seq<usize>)>;

/// `fuzzy_matcher`'s skim matcher with its default configuration (smart
/// case): whether `pattern` fuzzily matches `choice`, with the score and the
/// positions of the matched characters.
#[verifier::external_body]
fn fuzzy_indices(choice: &str, pattern: &str) -> (r: Option<(i64, Vec<usize>)>)
    ensures
        r matches Some((score, idx)) ==> skim_match(choice@, pattern@) == Some((score, idx@)),
        r is None ==> skim_match(choice@, pattern@) is None,
{
    SkimMatcherV2::default().fuzzy_indices(choice, pattern)
}

/// `s` without a leading `"./"`.
pub open spec fn strip_dot_slash(s: Seq<char>) -> Seq<char> {
    if s.len() >= 2 && s[0] == '.' && s[1] == '/' {
        s.skip(2)
    } else {
        s
    }
}

/// `s` without a leading `"./"`.
pub fn strip_dot_slash_of(s: &str) -> (r: String)
    ensures
        r@ == strip_dot_slash(s@),
{
    let cs = chars_of(s);
    if cs.len() >= 2 && cs[0] == '.' && cs[1] == '/' {
        let r = string_of(&cs, 2, cs.len());
        assert(r@ =~= strip_dot_slash(s@));
        r
    } else {
        let r = string_of(&cs, 0, cs.len());
        assert(r@ =~= strip_dot_slash(s@));
        r
    }
}

/// A file shown in the picker: its index in the list of files and the
/// positions of the characters that matched the filter.
pub open spec fn visible_entry(files: Seq<Seq<char>>, filter: Seq<char>, i: int) -> Option<(usize, Set<usize>)> {
    match skim_match(strip_dot_slash(files[i]), filter) {
        Some((_, idx)) => Some((i as usize, idx.to_set())),
        None => None,
    }
}

/// The files that the picker shows for `filter`: all of them, with no
/// marks, for an empty filter; else those whose path (without a leading
/// `"./"`) the filter matches, in order, with the matched positions.
pub open spec fn visible_files(files: Seq<Seq<char>>, filter: Seq<char>, k: nat) -> Seq<(usize, Set<usize>)>
    decreases k,
{
    if k == 0 {
        Seq::empty()
    } else {
        let prev = visible_files(files, filter, (k - 1) as nat);
        if filter.len() == 0 {
            prev.push(((k - 1) as usize, Set::empty()))
        } else {
            match visible_entry(files, filter, k - 1) {
                Some(e) => prev.push(e),
                None => prev,
            }
        }
    }
}

/// The view of the list of shown files.
pub open spec fn visible_view(v: Seq<(usize, HashSet<usize>)>) -> Seq<(usize, Set<usize>)> {
    v.map_values(|e: (usize, HashSet<usize>)| (e.0, e.1@))
}

/// The view of a list of strings.
pub open spec fn strings_view(v: Seq<String>) -> Seq<Seq<char>> {
    v.map_values(|s: String| s@)
}

fn set_of(v: &Vec<usize>) -> (s: HashSet<usize>)
    ensures
        s@ == v@.to_set(),
{
    let mut s: HashSet<usize> = HashSet::new();
    let mut i: usize = 0;
    assert(v@.take(0).to_set() =~= Set::<usize>::empty());
    while i < v.len()
        invariant
            i <= v.len(),
            s@ == v@.take(i as int).to_set(),
        decreases v.len() - i,
    {
        s.insert(v[i]);
        proof {
            v@.take(i as int).lemma_push_to_set_commute(v@[i as int]);
            assert(v@.take(i + 1) =~= v@.take(i as int).push(v@[i as int]));
        }
        i = i + 1;
    }
    assert(v@.take(v.len() as int) =~= v@);
    s
}

/// The files that the picker shows for `filter_text` (see `visible_files`).
pub fn picker_visible(files: &Vec<String>, filter_text: &str) -> (r: Vec<(usize, HashSet<usize>)>)
    ensures
        visible_view(r@) == visible_files(strings_view(files@), filter_text@, files.len() as nat),
        forall|j: int| 0 <= j < r.len() ==> (#[trigger] r@[j]).0 < files.len(),
{
    let ghost fv = strings_view(files@);
    let empty = filter_text.unicode_len() == 0;
    let mut out: Vec<(usize, HashSet<usize>)> = Vec::new();
    let mut i: usize = 0;
    while i < files.len()
        invariant
            i <= files.len(),
            fv == strings_view(files@),
            empty == (filter_text@.len() == 0),
            visible_view(out@) == visible_files(fv, filter_text@, i as nat),
            forall|j: int| 0 <= j < out.len() ==> (#[trigger] out@[j]).0 < i,
        decreases files.len() - i,
    {
        let ghost before = visible_view(out@);
        if empty {
            out.push((i, HashSet::new()));
            assert(visible_view(out@) =~= before.push((i, Set::<usize>::empty())));
        } else {
            let name = strip_dot_slash_of(files[i].as_str());
            match fuzzy_indices(name.as_str(), filter_text) {
                Some((_, idx)) => {
                    let set = set_of(&idx);
                    out.push((i, set));
                    assert(visible_view(out@) =~= before.push((i, idx@.to_set())));
                },
                None => {},
            }
        }
        i = i + 1;
    }
    out
}

// ---------------------------------------------------------------------------
// Selection and keys

/// What the picker asks its caller to do after a key.
#[derive(Clone, Copy, Debug, PartialEq, Eq, Structural)]
pub enum PickerAction {
    /// Keep picking.
    Continue,
    /// Open the file with this index in the list of files.
    Open(usize),
    Quit,
}

/// The state of the picker: the selected row of the shown files, and the
/// filter.
pub struct Picker {
    pub selected: usize,
    /// The filter bar is taking keys.
    pub filter_mode: bool,
    pub filter_text: String,
}

/// `min(a, b)`.
pub open spec fn min_int(a: int, b: int) -> int {
    if a <= b {
        a
    } else {
        b
    }
}

/// What a key does to the picker, given the `shown` files (their indices
/// in the list of files) and what it then asks for. With the filter bar
/// open, characters are typed into the filter (the selection goes back to
/// the top), `Backspace` removes one (closing the bar when the filter is
/// empty), `Esc` clears the filter and closes the bar; otherwise `q`/`Esc`
/// quit, `/` opens an empty filter bar. In both, `Enter` opens the selected
/// file and the arrows (and `j`/`k` outside the filter bar) move the
/// selection within the list.
pub open spec fn picker_key_effect(
    o: Picker,
    n: Picker,
    key: Key,
    shown: Seq<usize>,
    act: PickerAction,
) -> bool {
    let len = shown.len();
    let down = if len > 0 {
        min_int(o.selected + 1, len - 1) as usize
    } else {
        o.selected
    };
    let up = if o.selected > 0 {
        (o.selected - 1) as usize
    } else {
        0
    };
    let open = if len > 0 {
        PickerAction::Open(shown[o.selected as int])
    } else {
        PickerAction::Continue
    };
    let same_filter = n.filter_mode == o.filter_mode && n.filter_text@ == o.filter_text@;
    if !key.press {
        n == o && act == PickerAction::Continue
    } else if o.filter_mode {
        match key.code {
            KeyCode::Esc => !n.filter_mode && n.filter_text@ == Seq::<char>::empty() && n.selected
                == o.selected && act == PickerAction::Continue,
            KeyCode::Backspace => {
                let t = if o.filter_text@.len() > 0 {
                    o.filter_text@.drop_last()
                } else {
                    o.filter_text@
                };
                n.filter_text@ == t && n.filter_mode == (t.len() > 0) && n.selected == o.selected
                    && act == PickerAction::Continue
            },
            KeyCode::Enter => n == o && act == open,
            KeyCode::Down => same_filter && n.selected == down && act == PickerAction::Continue,
            KeyCode::Up => same_filter && n.selected == up && act == PickerAction::Continue,
            KeyCode::Char(c) => n.filter_mode && n.filter_text@ == o.filter_text@.push(c)
                && n.selected == 0 && act == PickerAction::Continue,
            _ => n == o && act == PickerAction::Continue,
        }
    } else {
        match key.code {
            KeyCode::Char('q') | KeyCode::Esc => n == o && act == PickerAction::Quit,
            KeyCode::Char('j') | KeyCode::Down => same_filter && n.selected == down && act
                == PickerAction::Continue,
            KeyCode::Char('k') | KeyCode::Up => same_filter && n.selected == up && act
                == PickerAction::Continue,
            KeyCode::Char('/') => n.filter_mode && n.filter_text@ == Seq::<char>::empty()
                && n.selected == o.selected && act == PickerAction::Continue,
            KeyCode::Enter => n == o && act == open,
            _ => n == o && act == PickerAction::Continue,
        }
    }
}

/// The file indices of the shown files.
pub open spec fn shown_indices(v: Seq<(usize, HashSet<usize>)>) -> Seq<usize> {
    v.map_values(|e: (usize, HashSet<usize>)| e.0)
}

impl Picker {
    /// A picker with the first file selected and no filter.
    pub fn new() -> (p: Picker)
        ensures
            p.selected == 0,
            !p.filter_mode,
            p.filter_text@ == Seq::<char>::empty(),
    {
        Picker { selected: 0, filter_mode: false, filter_text: String::new() }
    }

    /// Keeps the selection within a list of `len` shown files: past the end
    /// it moves to the last one (the first where there are none).
    pub fn clamp_selection(&mut self, len: usize)
        ensures
            final(self).selected == if old(self).selected >= len {
                if len > 0 {
                    (len - 1) as usize
                } else {
                    0
                }
            } else {
                old(self).selected
            },
            final(self).filter_mode == old(self).filter_mode,
            final(self).filter_text == old(self).filter_text,
            len > 0 ==> final(self).selected < len,
    {
        if self.selected >= len {
            self.selected = len.saturating_sub(1);
        }
    }

    /// The files to show for the current filter (see `picker_visible`), with
    /// the selection moved onto the list where it was past its end (see
    /// `clamp_selection`): at every draw the selection is a row of the list,
    /// unless the list is empty.
    pub fn shown_files(&mut self, files: &Vec<String>) -> (r: Vec<(usize, HashSet<usize>)>)
        ensures
            visible_view(r@) == visible_files(
                strings_view(files@),
                old(self).filter_text@,
                files.len() as nat,
            ),
            forall|j: int| 0 <= j < r.len() ==> (#[trigger] r@[j]).0 < files.len(),
            final(self).selected == if old(self).selected >= r.len() {
                if r.len() > 0 {
                    (r.len() - 1) as usize
                } else {
                    0
                }
            } else {
                old(self).selected
            },
            final(self).filter_mode == old(self).filter_mode,
            final(self).filter_text == old(self).filter_text,
            r.len() > 0 ==> final(self).selected < r.len(),
    {
        let r = picker_visible(files, self.filter_text.as_str());
        self.clamp_selection(r.len());
        r
    }

    /// Applies a key (see `picker_key_effect`); `shown` are the files on
    /// the list, within which the selection must be when `Enter` opens one.
    pub fn handle_key(&mut self, key: Key, shown: &Vec<(usize, HashSet<usize>)>) -> (act: PickerAction)
        requires
            key.press && key.code == KeyCode::Enter && shown.len() > 0 ==> old(self).selected
                < shown.len(),
        ensures
            picker_key_effect(*old(self), *final(self), key, shown_indices(shown@), act),
    {
        if !key.press {
            return PickerAction::Continue;
        }
        let len = shown.len();
        let ghost si = shown_indices(shown@);
        assert(len > 0 && self.selected < len ==> si[self.selected as int] == shown@[self.selected as int].0);
        if self.filter_mode {
            match key.code {
                KeyCode::Esc => {
                    self.filter_mode = false;
                    self.filter_text = String::new();
                    PickerAction::Continue
                },
                KeyCode::Backspace => {
                    crate::text::pop_last_char(&mut self.filter_text);
                    if self.filter_text.as_str().unicode_len() == 0 {
                        self.filter_mode = false;
                    }
                    PickerAction::Continue
                },
                KeyCode::Enter => {
                    if len > 0 {
                        PickerAction::Open(shown[self.selected].0)
                    } else {
                        PickerAction::Continue
                    }
                },
                KeyCode::Down => {
                    if len > 0 {
                        self.selected = if self.selected < len - 1 {
                            self.selected + 1
                        } else {
                            len - 1
                        };
                    }
                    PickerAction::Continue
                },
                KeyCode::Up => {
                    self.selected = self.selected.saturating_sub(1);
                    PickerAction::Continue
                },
                KeyCode::Char(c) => {
                    push_char(&mut self.filter_text, c);
                    self.selected = 0;
                    PickerAction::Continue
                },
                _ => PickerAction::Continue,
            }
        } else {
            match key.code {
                KeyCode::Char('q') | KeyCode::Esc => PickerAction::Quit,
                KeyCode::Char('j') | KeyCode::Down => {
                    if len > 0 {
                        self.selected = if self.selected < len - 1 {
                            self.selected + 1
                        } else {
                            len - 1
                        };
                    }
                    PickerAction::Continue
                },
                KeyCode::Char('k') | KeyCode::Up => {
                    self.selected = self.selected.saturating_sub(1);
                    PickerAction::Continue
                },
                KeyCode::Char('/') => {
                    self.filter_mode = true;
                    self.filter_text = String::new();
                    PickerAction::Continue
                },
                KeyCode::Enter => {
                    if len > 0 {
                        PickerAction::Open(shown[self.selected].0)
                    } else {
                        PickerAction::Continue
                    }
                },
                _ => PickerAction::Continue,
            }
        }
    }
}

// ---------------------------------------------------------------------------
// The lines of the picker

/// The title line: the filter bar while it takes keys, else the name of
/// the program.
pub open spec fn picker_title(filter_mode: bool, filter_text: Seq<char>, theme: Theme) -> Seq<SpanView> {
    if filter_mode {
        seq![span("Filter: "@, theme.picker_filter_prompt), span(filter_text, theme.picker_filter_input)]
    } else {
        seq![span("miru"@, theme.picker_title)]
    }
}

/// The title line of the picker (see `picker_title`).
pub fn render_picker_title(filter_mode: bool, filter_text: &str, theme: &Theme) -> (l: StyledLine)
    ensures
        l@ == picker_title(filter_mode, filter_text@, *theme),
{
    if filter_mode {
        let mut spans: Vec<StyledSpan> = Vec::new();
        spans.push(StyledSpan::styled(String::from_str("Filter: "), theme.picker_filter_prompt));
        spans.push(StyledSpan::styled(String::from_str(filter_text), theme.picker_filter_input));
        assert(spans_view(spans@) =~= picker_title(filter_mode, filter_text@, *theme));
        StyledLine::from_spans(spans)
    } else {
        StyledLine::from_span(StyledSpan::styled(String::from_str("miru"), theme.picker_title))
    }
}

/// The help line of the picker.
pub fn render_picker_help(theme: &Theme) -> (l: StyledLine)
    ensures
        l@ == seq![span("j/k navigate · / filter · enter open · q quit"@, theme.picker_help)],
{
    StyledLine::from_span(
        StyledSpan::styled(String::from_str("j/k navigate · / filter · enter open · q quit"), theme.picker_help),
    )
}

/// A path split for display into its directory, with a trailing `/` and
/// without a leading `./`, and its file name; a file in `.` is shown whole.
pub open spec fn split_path(path: Seq<char>) -> (Seq<char>, Seq<char>) {
    match path_parent(path) {
        Some(p) => if p == seq!['.'] {
            (Seq::empty(), path)
        } else {
            (
                strip_dot_slash(p) + seq!['/'],
                match path_file_name(path) {
                    Some(f) => f,
                    None => path,
                },
            )
        },
        None => (Seq::empty(), path),
    }
}

/// The positions of `m` moved forward by `d`.
pub open spec fn offset_by(m: Set<usize>, d: nat) -> Set<usize> {
    Set::new(|j: usize| j >= d && m.contains((j - d) as usize))
}

/// The positions of `m` moved back by `d`, those before `d` dropped.
pub open spec fn shifted(m: Set<usize>, d: nat) -> Set<usize> {
    Set::new(|j: usize| j + d <= usize::MAX && m.contains((j + d) as usize))
}

/// The line of a file in the list: the gutter (marked when selected), then
/// the directory and the file name, with the characters that matched a
/// non-empty filter marked. The matched positions are those of the path
/// without a leading `./`: a file in `.` is shown whole, its marks moved past
/// the `./`.
pub open spec fn entry_line(
    path: Seq<char>,
    matched: Set<usize>,
    selected: bool,
    filtering: bool,
    theme: Theme,
) -> Seq<SpanView> {
    let (dir, file) = split_path(path);
    let gutter = span(
        if selected {
            seq!['▌', ' ']
        } else {
            seq![' ', ' ']
        },
        if selected {
            theme.picker_gutter
        } else {
            plain_style()
        },
    );
    let base = if selected {
        theme.picker_selected
    } else {
        theme.picker_file
    };
    let rest = if filtering && !matched.is_empty() {
        if dir.len() > 0 {
            matched_spans(dir, matched, theme.picker_dir, theme.picker_match) + matched_spans(
                file,
                shifted(matched, dir.len()),
                base,
                theme.picker_match,
            )
        } else {
            matched_spans(
                file,
                offset_by(matched, (path.len() - strip_dot_slash(path).len()) as nat),
                base,
                theme.picker_match,
            )
        }
    } else {
        if dir.len() > 0 {
            seq![span(dir, theme.picker_dir), span(file, base)]
        } else {
            seq![span(file, base)]
        }
    };
    seq![gutter] + rest
}

/// The line under a file: its size and its age.
pub open spec fn meta_line(size: Seq<char>, age: Seq<char>, theme: Theme) -> Seq<SpanView> {
    seq![span(seq![' ', ' '], plain_style()), span(size + seq![' ', ' '] + age, theme.picker_meta)]
}

/// The first row of the list shown in a list area `height` lines high: the
/// selection stays on screen, each file taking two lines.
pub open spec fn list_offset(selected: nat, height: nat) -> nat {
    let per_screen = height / 2;
    if selected >= per_screen {
        (selected - per_screen + 1) as nat
    } else {
        0
    }
}

/// The lines of the list for the first `k` shown files: from the first
/// row shown on, each file's line followed by its size and age, as many
/// lines as fit in `height`.
pub open spec fn list_lines(
    files: Seq<Seq<char>>,
    metas: Seq<(Seq<char>, Seq<char>)>,
    shown: Seq<(usize, Set<usize>)>,
    selected: nat,
    filtering: bool,
    height: nat,
    theme: Theme,
    k: nat,
) -> Seq<Seq<SpanView>>
    decreases k,
{
    if k == 0 {
        Seq::empty()
    } else {
        let vi = k - 1;
        let prev = list_lines(files, metas, shown, selected, filtering, height, theme, vi as nat);
        if vi < list_offset(selected, height) || prev.len() >= height {
            prev
        } else {
            let (fi, matched) = shown[vi];
            let l1 = prev.push(entry_line(files[fi as int], matched, vi == selected, filtering, theme));
            if l1.len() < height {
                l1.push(meta_line(metas[fi as int].0, metas[fi as int].1, theme))
            } else {
                l1
            }
        }
    }
}

/// The view of the size and age labels of the files.
pub open spec fn metas_view(v: Seq<(String, String)>) -> Seq<(Seq<char>, Seq<char>)> {
    v.map_values(|m: (String, String)| (m.0@, m.1@))
}

proof fn lemma_matched_spans_agree(
    name: Seq<char>,
    a: Set<usize>,
    b: Set<usize>,
    base: Style,
    ms: Style,
    k: nat,
)
    requires
        k <= name.len(),
        forall|j: usize| j < name.len() ==> (a.contains(j) <==> b.contains(j)),
    ensures
        matched_spans_upto(name, a, base, ms, k) == matched_spans_upto(name, b, base, ms, k),
    decreases k,
{
    if k > 0 {
        lemma_matched_spans_agree(name, a, b, base, ms, (k - 1) as nat);
        assert(a.contains((k - 1) as usize) <==> b.contains((k - 1) as usize));
    }
}

/// The spans of a file's line (see `entry_line`).
fn entry_spans(
    path: &str,
    matched: &HashSet<usize>,
    selected: bool,
    filtering: bool,
    theme: &Theme,
) -> (r: StyledLine)
    ensures
        r@ == entry_line(path@, matched@, selected, filtering, *theme),
{
    let (dir, file) = match parent(path) {
        Some(p) => {
            if crate::text::str_eq(p.as_str(), ".") {
                (String::new(), String::from_str(path))
            } else {
                let mut d = strip_dot_slash_of(p.as_str());
                push_char(&mut d, '/');
                let f = match file_name(path) {
                    Some(f) => f,
                    None => String::from_str(path),
                };
                (d, f)
            }
        },
        None => (String::new(), String::from_str(path)),
    };
    proof {
        reveal_strlit(".");
        reveal_strlit("▌ ");
        reveal_strlit("  ");
        assert("."@ =~= seq!['.']);
        assert((dir@, file@) == split_path(path@));
    }
    let mut spans: Vec<StyledSpan> = Vec::new();
    let gutter = if selected {
        String::from_str("▌ ")
    } else {
        String::from_str("  ")
    };
    let gutter_style = if selected {
        theme.picker_gutter
    } else {
        Style::new()
    };
    proof {
        assert(spans_view(spans@) =~= Seq::<SpanView>::empty());
        if selected {
            assert(gutter@ =~= seq!['▌', ' ']);
        } else {
            assert(gutter@ =~= seq![' ', ' ']);
            assert(gutter_style == plain_style());
        }
    }
    push_span(&mut spans, StyledSpan::styled(gutter, gutter_style));
    let base = if selected {
        theme.picker_selected
    } else {
        theme.picker_file
    };
    let has_dir = dir.as_str().unicode_len() > 0;
    if filtering && !matched.is_empty() {
        if has_dir {
            let mut a = styled_filename_with_matches(dir.as_str(), matched, theme.picker_dir, theme.picker_match);
            append_spans(&mut spans, &mut a);
            let d = dir.as_str().unicode_len();
            let n = file.as_str().unicode_len();
            let mut sh: HashSet<usize> = HashSet::new();
            let mut j: usize = 0;
            while j < n
                invariant
                    j <= n,
                    d == dir@.len(),
                    forall|x: usize| #[trigger] sh@.contains(x) ==> x < j && shifted(matched@, d as nat).contains(x),
                    forall|x: usize| x < j && shifted(matched@, d as nat).contains(x) ==> #[trigger] sh@.contains(x),
                decreases n - j,
            {
                if d <= usize::MAX - j && matched.contains(&(j + d)) {
                    sh.insert(j);
                }
                j = j + 1;
            }
            let mut b = styled_filename_with_matches(file.as_str(), &sh, base, theme.picker_match);
            proof {
                lemma_matched_spans_agree(file@, sh@, shifted(matched@, d as nat), base, theme.picker_match, file@.len());
            }
            append_spans(&mut spans, &mut b);
        } else {
            let pc = chars_of(path);
            let lead: usize = if pc.len() >= 2 && pc[0] == '.' && pc[1] == '/' {
                2
            } else {
                0
            };
            proof {
                assert(lead == path@.len() - strip_dot_slash(path@).len());
            }
            let n = file.as_str().unicode_len();
            let mut sh: HashSet<usize> = HashSet::new();
            let mut j: usize = 0;
            while j < n
                invariant
                    j <= n,
                    forall|x: usize| #[trigger] sh@.contains(x) ==> x < j && offset_by(matched@, lead as nat).contains(x),
                    forall|x: usize| x < j && offset_by(matched@, lead as nat).contains(x) ==> #[trigger] sh@.contains(x),
                decreases n - j,
            {
                if j >= lead && matched.contains(&(j - lead)) {
                    sh.insert(j);
                }
                j = j + 1;
            }
            let mut a = styled_filename_with_matches(file.as_str(), &sh, base, theme.picker_match);
            proof {
                lemma_matched_spans_agree(file@, sh@, offset_by(matched@, lead as nat), base, theme.picker_match, file@.len());
            }
            append_spans(&mut spans, &mut a);
        }
    } else {
        if has_dir {
            push_span(&mut spans, StyledSpan::styled(dir, theme.picker_dir));
        }
        push_span(&mut spans, StyledSpan::styled(file, base));
    }
    assert(spans_view(spans@) =~= entry_line(path@, matched@, selected, filtering, *theme));
    StyledLine::from_spans(spans)
}

/// The size-and-age line under a file (see `meta_line`).
fn meta_spans(size: &str, age: &str, theme: &Theme) -> (l: StyledLine)
    ensures
        l@ == meta_line(size@, age@, *theme),
{
    proof {
        reveal_strlit("  ");
    }
    let mut text = String::new();
    push_str(&mut text, size);
    push_str(&mut text, "  ");
    push_str(&mut text, age);
    let mut spans: Vec<StyledSpan> = Vec::new();
    let pad = String::from_str("  ");
    proof {
        assert(pad@ =~= seq![' ', ' ']);
        assert(text@ =~= size@ + seq![' ', ' '] + age@);
    }
    spans.push(StyledSpan::styled(pad, Style::new()));
    spans.push(StyledSpan::styled(text, theme.picker_meta));
    proof {
        assert(spans_view(spans@) =~= meta_line(size@, age@, *theme));
    }
    StyledLine::from_spans(spans)
}

/// The lines of the file list, `height` lines high (see `list_lines`):
/// `shown` lists the files shown, by index into `files` and `metas`, and
/// `selected` is a position in `shown`.
pub fn render_picker_list(
    files: &Vec<String>,
    metas: &Vec<(String, String)>,
    shown: &Vec<(usize, HashSet<usize>)>,
    selected: usize,
    filtering: bool,
    height: usize,
    theme: &Theme,
) -> (r: Vec<StyledLine>)
    requires
        files.len() == metas.len(),
        forall|j: int| 0 <= j < shown.len() ==> (#[trigger] shown@[j]).0 < files.len(),
    ensures
        lines_view(r@) == list_lines(
            strings_view(files@),
            metas_view(metas@),
            visible_view(shown@),
            selected as nat,
            filtering,
            height as nat,
            *theme,
            shown.len() as nat,
        ),
{
    let ghost fv = strings_view(files@);
    let ghost mv = metas_view(metas@);
    let ghost sv = visible_view(shown@);
    let per_screen = height / 2;
    let mut lines: Vec<StyledLine> = Vec::new();
    let mut vi: usize = 0;
    proof {
        assert(lines_view(lines@) =~= Seq::<Seq<SpanView>>::empty());
    }
    while vi < shown.len()
        invariant
            vi <= shown.len(),
            per_screen == height / 2,
            files.len() == metas.len(),
            forall|j: int| 0 <= j < shown.len() ==> (#[trigger] shown@[j]).0 < files.len(),
            fv == strings_view(files@),
            mv == metas_view(metas@),
            sv == visible_view(shown@),
            lines_view(lines@) == list_lines(fv, mv, sv, selected as nat, filtering, height as nat, *theme, vi as nat),
        decreases shown.len() - vi,
    {
        let before_window = selected >= per_screen && vi <= selected - per_screen;
        proof {
            assert(before_window == (vi < list_offset(selected as nat, height as nat)));
        }
        if !before_window && lines.len() < height {
            let fi = shown[vi].0;
            let entry = entry_spans(files[fi].as_str(), &shown[vi].1, vi == selected, filtering, theme);
            push_line(&mut lines, entry);
            if lines.len() < height {
                let meta = meta_spans(metas[fi].0.as_str(), metas[fi].1.as_str(), theme);
                push_line(&mut lines, meta);
            }
        }
        proof {
            assert(lines_view(lines@).len() == lines@.len());
        }
        vi = vi + 1;
    }
    lines
}

/// The file list with every file shown, unmarked, in order.
pub open spec fn all_files(k: nat) -> Seq<(usize, Set<usize>)> {
    Seq::new(k, |i: int| (i as usize, Set::<usize>::empty()))
}

proof fn lemma_empty_filter_shows_all(files: Seq<Seq<char>>, k: nat)
    ensures
        visible_files(files, Seq::empty(), k) == all_files(k),
    decreases k,
{
    if k > 0 {
        lemma_empty_filter_shows_all(files, (k - 1) as nat);
        assert(all_files((k - 1) as nat).push(((k - 1) as usize, Set::<usize>::empty())) =~= all_files(k));
    }
}

/// `Esc` in the filter bar clears the filter and restores all results:
/// after it, the picker shows every file, in order, with nothing marked.
pub proof fn lemma_escape_restores_all_files(
    o: Picker,
    n: Picker,
    key: Key,
    shown: Seq<usize>,
    act: PickerAction,
    files: Seq<Seq<char>>,
)
    requires
        o.filter_mode,
        key.press,
        key.code == KeyCode::Esc,
        picker_key_effect(o, n, key, shown, act),
    ensures
        !n.filter_mode,
        visible_files(files, n.filter_text@, files.len()) == all_files(files.len()),
{
    lemma_empty_filter_shows_all(files, files.len());
}

/// A non-empty filter shows exactly the files whose path (without a leading
/// `./`) it fuzzily matches, each once, in the order of the list, with the
/// positions the matcher marked.
pub proof fn lemma_filter_shows_exactly_the_matches(files: Seq<Seq<char>>, filter: Seq<char>, n: nat)
    requires
        filter.len() > 0,
        n <= files.len(),
        files.len() <= usize::MAX,
    ensures
        forall|k: int|
            0 <= k < visible_files(files, filter, n).len() ==> {
                let e = #[trigger] visible_files(files, filter, n)[k];
                &&& e.0 < n
                &&& skim_match(strip_dot_slash(files[e.0 as int]), filter) is Some
                &&& e.1 == (skim_match(strip_dot_slash(files[e.0 as int]), filter)->0).1.to_set()
            },
        forall|j: int, k: int|
            0 <= j < k < visible_files(files, filter, n).len() ==> (#[trigger] visible_files(
                files,
                filter,
                n,
            )[j]).0 < (#[trigger] visible_files(files, filter, n)[k]).0,
        forall|i: int|
            0 <= i < n && (#[trigger] skim_match(strip_dot_slash(files[i]), filter)) is Some ==> exists|k: int|
                0 <= k < visible_files(files, filter, n).len() && visible_files(files, filter, n)[k].0
                    == i,
    decreases n,
{
    if n > 0 {
        let m = (n - 1) as nat;
        lemma_filter_shows_exactly_the_matches(files, filter, m);
        let prev = visible_files(files, filter, m);
        let cur = visible_files(files, filter, n);
        assert forall|k: int| 0 <= k < cur.len() implies {
            let e = #[trigger] cur[k];
            &&& e.0 < n
            &&& skim_match(strip_dot_slash(files[e.0 as int]), filter) is Some
            &&& e.1 == (skim_match(strip_dot_slash(files[e.0 as int]), filter)->0).1.to_set()
        } by {
            if k < prev.len() {
                assert(cur[k] == prev[k]);
            }
        }
        assert forall|j: int, k: int| 0 <= j < k < cur.len() implies (#[trigger] cur[j]).0 < (
        #[trigger] cur[k]).0 by {
            assert(cur[j] == prev[j]);
            if k < prev.len() {
                assert(cur[k] == prev[k]);
            }
        }
        assert forall|i: int| 0 <= i < n && (#[trigger] skim_match(strip_dot_slash(files[i]), filter))
            is Some implies exists|k: int| 0 <= k < cur.len() && cur[k].0 == i by {
            if i < m {
                let k = choose|k: int| 0 <= k < prev.len() && prev[k].0 == i;
                assert(cur[k] == prev[k]);
            } else {
                assert(cur[cur.len() - 1].0 == i);
            }
        }
    }
}

} // verus!
