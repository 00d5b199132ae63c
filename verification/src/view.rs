//! What the reader shows: the tab bar, the help bar, the search bar, the
//! document with its matches highlighted, and the headings index.
use vstd::prelude::*;
use crate::line::{lines_view, push_line, push_span, span, spans_view, SpanView, StyledLine, StyledSpan};
use crate::markdown::{str_len, Heading, HeadingView, headings_view};
use crate::reader::Reader;
use crate::search::{copy_span, highlight_line, line_highlight, lowercase};
use crate::style::{plain_style, Style, Theme};
use crate::tab::Tab;
use crate::text::{decimal, push_char, push_decimal, push_repeat, push_str, repeat, str_byte_len};

verus! {

broadcast use vstd::std_specs::hash::group_hash_axioms;

/// The label of a tab: its name between two spaces.
pub open spec fn tab_label(name: Seq<char>) -> Seq<char> {
    seq![' '] + name + seq![' ']
}

/// The names of the tabs.
pub open spec fn tab_names(tabs: Seq<Tab>) -> Seq<Seq<char>> {
    tabs.map_values(|t: Tab| t.name@)
}

/// The spans of the first `k` tabs in the tab bar: each label in the active
/// or inactive style, a space in the bar's background between labels.
pub open spec fn tab_bar_spans(names: Seq<Seq<char>>, active: nat, k: nat, theme: Theme) -> Seq<
    SpanView,
>
    decreases k,
{
    if k == 0 {
        Seq::empty()
    } else {
        let i = k - 1;
        let style = if i == active {
            theme.tab_active
        } else {
            theme.tab_inactive
        };
        let spans = tab_bar_spans(names, active, i as nat, theme).push(
            span(tab_label(names[i]), style),
        );
        if i < names.len() - 1 {
            spans.push(span(seq![' '], theme.tab_bar_bg))
        } else {
            spans
        }
    }
}

/// The bytes that the first `k` tabs take in the tab bar.
pub open spec fn tab_bar_used(names: Seq<Seq<char>>, k: nat) -> nat
    decreases k,
{
    if k == 0 {
        0
    } else {
        let i = k - 1;
        tab_bar_used(names, i as nat) + str_len(tab_label(names[i])) + if i < names.len() - 1 {
            1nat
        } else {
            0nat
        }
    }
}

/// The tab bar: the tabs' labels, the bar's background filling the rest of
/// the `width` columns.
pub open spec fn tab_bar(names: Seq<Seq<char>>, active: nat, width: nat, theme: Theme) -> Seq<
    SpanView,
> {
    let used = tab_bar_used(names, names.len());
    let spans = tab_bar_spans(names, active, names.len(), theme);
    if width > used {
        spans.push(span(repeat(seq![' '], (width - used) as nat), theme.tab_bar_bg))
    } else {
        spans
    }
}

/// The tab bar of the reader, `width` columns wide.
pub fn render_tab_bar(reader: &Reader, theme: &Theme, width: u16) -> (l: StyledLine)
    ensures
        l@ == tab_bar(tab_names(reader.tabs@), reader.active as nat, width as nat, *theme),
{
    let ghost names = tab_names(reader.tabs@);
    let n = reader.tabs.len();
    let mut spans: Vec<StyledSpan> = Vec::new();
    let mut used: usize = 0;
    let mut i: usize = 0;
    proof {
        reveal_strlit(" ");
        assert(" "@ =~= seq![' ']);
    }
    assert(spans_view(spans@) =~= Seq::<SpanView>::empty());
    while i < n
        invariant
            i <= n,
            n == reader.tabs.len(),
            names == tab_names(reader.tabs@),
            " "@ == seq![' '],
            spans_view(spans@) == tab_bar_spans(names, reader.active as nat, i as nat, *theme),
            used == (if tab_bar_used(names, i as nat) > usize::MAX {
                usize::MAX as nat
            } else {
                tab_bar_used(names, i as nat)
            }),
        decreases n - i,
    {
        let style = if i == reader.active {
            theme.tab_active
        } else {
            theme.tab_inactive
        };
        let mut label = String::new();
        push_char(&mut label, ' ');
        push_str(&mut label, reader.tabs[i].name.as_str());
        push_char(&mut label, ' ');
        assert(label@ =~= tab_label(names[i as int]));
        used = used.saturating_add(str_byte_len(label.as_str()));
        push_span(&mut spans, StyledSpan::styled(label, style));
        if i < n - 1 {
            push_span(&mut spans, StyledSpan::styled(String::from_str(" "), theme.tab_bar_bg));
            used = used.saturating_add(1);
        }
        i = i + 1;
    }
    let remaining = (width as usize).saturating_sub(used);
    if remaining > 0 {
        let mut fill = String::new();
        push_repeat(&mut fill, " ", remaining);
        push_span(&mut spans, StyledSpan::styled(fill, theme.tab_bar_bg));
    }
    StyledLine::from_spans(spans)
}

/// The keys that the help bar lists, with what they do.
pub open spec fn help_binds() -> Seq<(Seq<char>, Seq<char>)> {
    seq![
        ("j/k"@, "scroll"@),
        ("d/u"@, "page"@),
        ("/"@, "search"@),
        ("h/l"@, "tabs"@),
        ("tab"@, "index"@),
        ("^T"@, "open"@),
        ("w"@, "close"@),
        ("q"@, "quit"@),
    ]
}

/// The spans of the first `k` entries of the help bar.
pub open spec fn help_spans(k: nat, theme: Theme) -> Seq<SpanView>
    decreases k,
{
    if k == 0 {
        Seq::empty()
    } else {
        let i = k - 1;
        let (key, desc) = help_binds()[i as int];
        let prev = help_spans(i as nat, theme);
        let sep = if i > 0 {
            prev.push(span(seq![' ', ' '], theme.help_bar))
        } else {
            prev
        };
        sep.push(span(key, theme.help_key)).push(span(seq![' '] + desc, theme.help_bar))
    }
}

/// The help bar: each key in the key style, followed by what it does.
pub fn render_help_bar(theme: &Theme) -> (l: StyledLine)
    ensures
        l@ == help_spans(8, *theme),
{
    let binds: [(&str, &str); 8] = [
        ("j/k", "scroll"),
        ("d/u", "page"),
        ("/", "search"),
        ("h/l", "tabs"),
        ("tab", "index"),
        ("^T", "open"),
        ("w", "close"),
        ("q", "quit"),
    ];
    assert(binds@.map_values(|b: (&str, &str)| (b.0@, b.1@)) =~= help_binds());
    let mut spans: Vec<StyledSpan> = Vec::new();
    let mut i: usize = 0;
    assert(spans_view(spans@) =~= Seq::<SpanView>::empty());
    while i < 8
        invariant
            i <= 8,
            binds@.map_values(|b: (&str, &str)| (b.0@, b.1@)) == help_binds(),
            spans_view(spans@) == help_spans(i as nat, *theme),
        decreases 8 - i,
    {
        let (key, desc) = binds[i];
        assert((key@, desc@) == help_binds()[i as int]);
        if i > 0 {
            let mut sep = String::new();
            push_char(&mut sep, ' ');
            push_char(&mut sep, ' ');
            assert(sep@ =~= seq![' ', ' ']);
            push_span(&mut spans, StyledSpan::styled(sep, theme.help_bar));
        }
        push_span(&mut spans, StyledSpan::styled(String::from_str(key), theme.help_key));
        let mut d = String::new();
        push_char(&mut d, ' ');
        push_str(&mut d, desc);
        assert(d@ =~= seq![' '] + desc@);
        push_span(&mut spans, StyledSpan::styled(d, theme.help_bar));
        i = i + 1;
    }
    StyledLine::from_spans(spans)
}

/// The first heading shown in an index `height` lines high with heading
/// `selected` selected: the selection stays on the last line.
pub open spec fn index_offset(selected: nat, height: nat) -> nat {
    if selected >= height {
        (selected - height + 1) as nat
    } else {
        0
    }
}

/// The line of a heading in the index: a gutter mark when it is selected,
/// then the text indented two spaces per level below the first.
pub open spec fn index_line(h: HeadingView, selected: bool, theme: Theme) -> Seq<SpanView> {
    let indent = repeat(seq![' ', ' '], if h.level >= 1 { (h.level - 1) as nat } else { 0 });
    seq![
        span(
            if selected {
                seq!['▌', ' ']
            } else {
                seq![' ', ' ']
            },
            if selected {
                theme.index_gutter
            } else {
                plain_style()
            },
        ),
        span(
            indent + h.text,
            if selected {
                theme.index_selected
            } else {
                theme.index_item
            },
        ),
    ]
}

/// The lines of the headings index, `height` lines high: the headings from
/// the first one shown (see `index_offset`) on, as many as fit.
pub open spec fn index_lines(hs: Seq<HeadingView>, selected: nat, height: nat, theme: Theme) -> Seq<
    Seq<SpanView>,
> {
    let off = index_offset(selected, height);
    let end: int = if off + height < hs.len() {
        (off + height) as int
    } else {
        hs.len() as int
    };
    let count = if end > off {
        (end - off) as nat
    } else {
        0
    };
    Seq::new(count, |j: int| index_line(hs[off + j], off + j == selected, theme))
}

/// The lines of the headings index of `headings` with `selected` selected,
/// in a list `height` lines high.
pub fn render_index(headings: &Vec<Heading>, selected: usize, height: usize, theme: &Theme) -> (r: Vec<
    StyledLine,
>)
    ensures
        lines_view(r@) == index_lines(headings_view(headings@), selected as nat, height as nat, *theme),
{
    let ghost hv = headings_view(headings@);
    let mut out: Vec<StyledLine> = Vec::new();
    if height == 0 {
        assert(lines_view(out@) =~= index_lines(hv, selected as nat, height as nat, *theme));
        return out;
    }
    let off = if selected >= height {
        selected - (height - 1)
    } else {
        0
    };
    let mut i = off;
    proof {
        reveal_strlit("▌ ");
        reveal_strlit("  ");
        assert("▌ "@ =~= seq!['▌', ' ']);
        assert("  "@ =~= seq![' ', ' ']);
    }
    while i < headings.len() && out.len() < height
        invariant
            off <= i,
            i <= headings.len() || i == off,
            height > 0,
            off == index_offset(selected as nat, height as nat),
            out.len() == i - off,
            out.len() <= height,
            hv == headings_view(headings@),
            "▌ "@ == seq!['▌', ' '],
            "  "@ == seq![' ', ' '],
            lines_view(out@) == Seq::new(
                (i - off) as nat,
                |j: int| index_line(hv[off + j], off + j == selected, *theme),
            ),
        decreases headings.len() - i,
    {
        let h = &headings[i];
        let is_selected = i == selected;
        let levels = if h.level >= 1 {
            (h.level - 1) as usize
        } else {
            0
        };
        let mut text = String::new();
        push_repeat(&mut text, "  ", levels);
        push_str(&mut text, h.text.as_str());
        let gutter = if is_selected {
            String::from_str("▌ ")
        } else {
            String::from_str("  ")
        };
        let gutter_style = if is_selected {
            theme.index_gutter
        } else {
            Style::new()
        };
        let style = if is_selected {
            theme.index_selected
        } else {
            theme.index_item
        };
        let mut spans: Vec<StyledSpan> = Vec::new();
        spans.push(StyledSpan::styled(gutter, gutter_style));
        spans.push(StyledSpan::styled(text, style));
        assert(spans_view(spans@) =~= index_line(hv[i as int], i == selected, *theme));
        push_line(&mut out, StyledLine::from_spans(spans));
        i = i + 1;
        assert(lines_view(out@) =~= Seq::new(
            (i - off) as nat,
            |j: int| index_line(hv[off + j], off + j == selected, *theme),
        ));
    }
    assert(lines_view(out@) =~= index_lines(hv, selected as nat, height as nat, *theme));
    out
}

/// Whether a tab shows its search: it has a query and matches.
pub open spec fn has_search(t: Tab) -> bool {
    t.search_query@.len() > 0 && t.match_set@.len() > 0
}

/// The lines of a tab as drawn: the lines that match the search with the
/// query highlighted (the current match in the active style), the others as
/// they are.
pub open spec fn display_lines(t: Tab, theme: Theme) -> Seq<Seq<SpanView>> {
    let lines = lines_view(t.lines@);
    Seq::new(
        lines.len(),
        |i: int|
            if has_search(t) && t.match_set@.contains(i as usize) {
                line_highlight(
                    lines[i],
                    lowercase(t.search_query@),
                    if t.current_match < t.matches.len() && t.matches@[t.current_match as int]
                        == i as usize {
                        theme.search_active
                    } else {
                        theme.search_highlight
                    },
                )
            } else {
                lines[i]
            },
    )
}

fn copy_line(l: &StyledLine) -> (r: StyledLine)
    ensures
        r@ == l@,
{
    let mut spans: Vec<StyledSpan> = Vec::new();
    let mut i: usize = 0;
    while i < l.spans.len()
        invariant
            i <= l.spans.len(),
            spans_view(spans@) == l@.take(i as int),
        decreases l.spans.len() - i,
    {
        push_span(&mut spans, copy_span(&l.spans[i]));
        i = i + 1;
        assert(spans_view(spans@) =~= l@.take(i as int));
    }
    assert(l@.take(l.spans.len() as int) =~= l@);
    StyledLine::from_spans(spans)
}

/// The lines of the active document as drawn (see `display_lines`).
pub fn render_document(tab: &Tab, theme: &Theme) -> (r: Vec<StyledLine>)
    ensures
        lines_view(r@) == display_lines(*tab, *theme),
{
    let has = tab.search_query.as_str().unicode_len() > 0 && tab.match_set.len() > 0;
    let ghost lv = lines_view(tab.lines@);
    let mut out: Vec<StyledLine> = Vec::new();
    let mut i: usize = 0;
    while i < tab.lines.len()
        invariant
            i <= tab.lines.len(),
            lv == lines_view(tab.lines@),
            has == has_search(*tab),
            lines_view(out@) == display_lines(*tab, *theme).take(i as int),
        decreases tab.lines.len() - i,
    {
        let line = if has && tab.match_set.contains(&i) {
            let style = if tab.current_match < tab.matches.len() && tab.matches[tab.current_match]
                == i {
                theme.search_active
            } else {
                theme.search_highlight
            };
            highlight_line(&tab.lines[i], tab.search_query.as_str(), style)
        } else {
            copy_line(&tab.lines[i])
        };
        push_line(&mut out, line);
        i = i + 1;
        assert(lines_view(out@) =~= display_lines(*tab, *theme).take(i as int));
    }
    assert(display_lines(*tab, *theme).take(tab.lines.len() as int) =~= display_lines(
        *tab,
        *theme,
    ));
    out
}

/// The position indicator of a search, `"current/total"`, when the tab
/// shows its search.
pub open spec fn search_info(t: Tab) -> Option<Seq<char>> {
    if has_search(t) {
        Some(
            decimal(
                if t.matches.len() == 0 {
                    0
                } else {
                    (t.current_match + 1) as nat
                },
            ) + seq!['/'] + decimal(t.matches.len() as nat),
        )
    } else {
        None
    }
}

/// The search bar: the prompt, the query, and the position indicator.
pub open spec fn search_bar(t: Tab, theme: Theme) -> Seq<SpanView> {
    let spans = seq![span(seq!['/', ' '], theme.search_prompt), span(t.search_query@, plain_style())];
    match search_info(t) {
        Some(info) => spans.push(span(seq![' ', ' ', '['] + info + seq![']'], theme.help_bar)),
        None => spans,
    }
}

/// The search bar of a tab (see `search_bar`).
pub fn render_search_bar(tab: &Tab, theme: &Theme) -> (l: StyledLine)
    requires
        tab.wf(),
    ensures
        l@ == search_bar(*tab, *theme),
{
    let mut spans: Vec<StyledSpan> = Vec::new();
    let mut prompt = String::new();
    push_char(&mut prompt, '/');
    push_char(&mut prompt, ' ');
    assert(prompt@ =~= seq!['/', ' ']);
    push_span(&mut spans, StyledSpan::styled(prompt, theme.search_prompt));
    push_span(&mut spans, StyledSpan::styled(tab.search_query.clone(), Style::new()));
    if tab.search_query.as_str().unicode_len() > 0 && tab.match_set.len() > 0 {
        let mut info = String::new();
        push_char(&mut info, ' ');
        push_char(&mut info, ' ');
        push_char(&mut info, '[');
        let cur: usize = if tab.matches.len() == 0 {
            0
        } else {
            tab.current_match + 1
        };
        push_decimal(&mut info, cur as u64);
        push_char(&mut info, '/');
        push_decimal(&mut info, tab.matches.len() as u64);
        push_char(&mut info, ']');
        assert(info@ =~= seq![' ', ' ', '['] + search_info(*tab)->0 + seq![']']);
        push_span(&mut spans, StyledSpan::styled(info, theme.help_bar));
    }
    assert(spans_view(spans@) =~= search_bar(*tab, *theme));
    StyledLine::from_spans(spans)
}

/// The bottom line of the reader: the help bar, or a hint to show it.
pub fn render_bottom_bar(show_help: bool, theme: &Theme) -> (l: StyledLine)
    ensures
        l@ == if show_help {
            help_spans(8, *theme)
        } else {
            seq![span("? help"@, theme.help_bar)]
        },
{
    if show_help {
        render_help_bar(theme)
    } else {
        StyledLine::from_span(StyledSpan::styled(String::from_str("? help"), theme.help_bar))
    }
}

/// The search bar is on the screen while it takes keys, and after the query
/// is confirmed for as long as the tab shows its matches, so that the
/// position indicator stays in view.
pub open spec fn search_bar_shown(t: Tab) -> bool {
    t.search_mode || has_search(t)
}

/// Whether the reader draws the search bar under the document of `tab` (see
/// `search_bar_shown`).
pub fn shows_search_bar(tab: &Tab) -> (b: bool)
    ensures
        b == search_bar_shown(*tab),
{
    tab.search_mode || (tab.search_query.as_str().unicode_len() > 0 && tab.match_set.len() > 0)
}

/// The title line of the headings index.
pub fn render_index_title(theme: &Theme) -> (l: StyledLine)
    ensures
        l@ == seq![span("Index"@, theme.index_title)],
{
    StyledLine::from_span(StyledSpan::styled(String::from_str("Index"), theme.index_title))
}

/// The help line of the headings index.
pub fn render_index_help(theme: &Theme) -> (l: StyledLine)
    ensures
        l@ == seq![span("j/k navigate · enter jump · tab/esc close"@, theme.help_bar)],
{
    StyledLine::from_span(
        StyledSpan::styled(String::from_str("j/k navigate · enter jump · tab/esc close"), theme.help_bar),
    )
}

} // verus!
