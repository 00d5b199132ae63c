//! Rendering of markdown events into styled lines, and the headings index
//! that goes with them.
use vstd::prelude::*;
use crate::line::{span, line_text, lines_view, spans_view, SpanView, StyledLine, StyledSpan};
use crate::style::{plain_style, Style, Theme};
use crate::text::{ascii_upper, decimal, is_ascii_text, pad_left, pad_right, repeat, utf8_len};

verus! {

/// The kind of a block or inline element of a markdown document, as far as
/// the renderer tells them apart.
#[derive(Clone, Copy, Debug, PartialEq, Eq, Structural)]
pub enum MdTag {
    Heading(u8),
    Paragraph,
    BlockQuote,
    CodeBlock,
    List,
    Item,
    Table,
    TableHead,
    TableRow,
    TableCell,
    Emphasis,
    Strong,
    Link,
    Other,
}

/// One event of a markdown document. `Start` carries the fence language of a
/// code block or the destination of a link, and is empty otherwise.
#[derive(Clone, Debug)]
pub enum MdEvent {
    Start(MdTag, String),
    End(MdTag),
    Text(String),
    Code(String),
    SoftBreak,
    HardBreak,
    Rule,
    Other,
}

/// What an event holds, with its strings as character sequences.
pub enum EventView {
    Start(MdTag, Seq<char>),
    End(MdTag),
    Text(Seq<char>),
    Code(Seq<char>),
    SoftBreak,
    HardBreak,
    Rule,
    Other,
}

impl View for MdEvent {
    type V = EventView;

    open spec fn view(&self) -> EventView {
        match self {
            MdEvent::Start(t, s) => EventView::Start(*t, s@),
            MdEvent::End(t) => EventView::End(*t),
            MdEvent::Text(s) => EventView::Text(s@),
            MdEvent::Code(s) => EventView::Code(s@),
            MdEvent::SoftBreak => EventView::SoftBreak,
            MdEvent::HardBreak => EventView::HardBreak,
            MdEvent::Rule => EventView::Rule,
            MdEvent::Other => EventView::Other,
        }
    }
}

/// The view of a sequence of events.
pub open spec fn events_view(events: Seq<MdEvent>) -> Seq<EventView> {
    events.map_values(|e: MdEvent| e@)
}

/// A heading of the document: its text, its level (1 to 6) and the index of
/// the rendered line that shows it.
#[derive(Clone, Debug)]
pub struct Heading {
    pub text: String,
    pub level: u8,
    pub line_index: usize,
}

/// What a heading holds.
pub struct HeadingView {
    pub text: Seq<char>,
    pub level: u8,
    pub line_index: usize,
}

impl View for Heading {
    type V = HeadingView;

    open spec fn view(&self) -> HeadingView {
        HeadingView { text: self.text@, level: self.level, line_index: self.line_index }
    }
}

/// The view of a sequence of headings.
pub open spec fn headings_view(hs: Seq<Heading>) -> Seq<HeadingView> {
    hs.map_values(|h: Heading| h@)
}

/// `s` converted to upper case by `str::to_uppercase` (Unicode case mapping).
pub uninterp spec fn upper_case(s: Seq<char>) -> Seq<char>;

/// `str::to_uppercase`: the upper-case form of `s`, which the Unicode tables of
/// the standard library determine from `s` alone. Within ASCII, Unicode
/// upper-cases exactly the small letters `a` to `z`, to `A` to `Z`, one for one.
#[verifier::external_body]
pub(crate) fn to_uppercase(s: &str) -> (r: String)
    ensures
        r@ == upper_case(s@),
        is_ascii_text(s@) ==> r@ == s@.map_values(|c: char| ascii_upper(c)),
{
    s.to_uppercase()
}

/// Byte length of a string, as `str::len` reports it.
pub open spec fn str_len(s: Seq<char>) -> nat {
    (utf8_len(s) as usize) as nat
}

// ---------------------------------------------------------------------------
// Splitting text into lines

/// The pieces of `s` between `'\n'` characters (`str::split('\n')`): one more
/// piece than there are newlines.
pub open spec fn split_nl(s: Seq<char>) -> Seq<Seq<char>>
    decreases s.len(),
{
    if s.len() == 0 {
        seq![Seq::empty()]
    } else {
        let p = split_nl(s.drop_last());
        if s.last() == '\n' {
            p.push(Seq::empty())
        } else {
            p.update(p.len() - 1, p.last().push(s.last()))
        }
    }
}

/// The lines of `s` as `str::lines` yields them: the pieces between newlines,
/// without a final empty piece, each piece that a newline ends losing one
/// trailing `'\r'`.
pub open spec fn text_lines(s: Seq<char>) -> Seq<Seq<char>> {
    let p = split_nl(s);
    let q = if p.last().len() == 0 {
        p.drop_last()
    } else {
        p
    };
    q.map(
        |i: int, piece: Seq<char>|
            if i < p.len() - 1 && piece.len() > 0 && piece.last() == '\r' {
                piece.drop_last()
            } else {
                piece
            },
    )
}

/// A finished line of text: inside a block quote (`quotes` of them open) a
/// line that is not empty starts with the quote's indicator `│ `.
pub open spec fn quoted(spans: Seq<SpanView>, quotes: nat, theme: Theme) -> Seq<SpanView> {
    if quotes > 0 && spans.len() > 0 {
        seq![span(seq!['│', ' '], theme.blockquote)] + spans
    } else {
        spans
    }
}

/// Adds the lines `pieces` of a text to the current spans: the first piece
/// continues the current line, each further piece starts a new one.
pub open spec fn text_into(
    lines: Seq<Seq<SpanView>>,
    spans: Seq<SpanView>,
    pieces: Seq<Seq<char>>,
    style: Style,
    quotes: nat,
    theme: Theme,
) -> (Seq<Seq<SpanView>>, Seq<SpanView>)
    decreases pieces.len(),
{
    if pieces.len() == 0 {
        (lines, spans)
    } else {
        let (l, sp) = text_into(lines, spans, pieces.drop_last(), style, quotes, theme);
        if pieces.len() > 1 {
            (l.push(quoted(sp, quotes, theme)), seq![span(pieces.last(), style)])
        } else {
            (l, sp.push(span(pieces.last(), style)))
        }
    }
}

// ---------------------------------------------------------------------------
// Code blocks

/// `lines` without its trailing empty lines.
pub open spec fn strip_trailing_empty(lines: Seq<Seq<char>>) -> Seq<Seq<char>>
    decreases lines.len(),
{
    if lines.len() > 0 && lines.last().len() == 0 {
        strip_trailing_empty(lines.drop_last())
    } else {
        lines
    }
}

/// The rendered line of code line `i` (counted from 0) of a block whose line
/// numbers are `nr_width` characters wide.
pub open spec fn code_line(code: Seq<char>, i: nat, nr_width: nat, theme: Theme) -> Seq<SpanView> {
    seq![
        span(seq![' ', ' '] + pad_left(decimal(i + 1), nr_width), theme.code_line_nr),
        span(seq![' ', '│', ' '], theme.border),
        span(code, theme.code_text),
    ]
}

/// The rendered lines of a code block: the language label if there is one,
/// each line of code (trailing empty lines dropped) with its line number,
/// then an empty line.
pub open spec fn code_block_lines(lang: Seq<char>, code: Seq<Seq<char>>, theme: Theme) -> Seq<
    Seq<SpanView>,
> {
    let code = strip_trailing_empty(code);
    let nr_width = decimal(code.len()).len();
    let label = if lang.len() > 0 {
        seq![seq![span(seq![' ', ' '] + lang, theme.code_label)]]
    } else {
        Seq::empty()
    };
    label + Seq::new(code.len(), |i: int| code_line(code[i], i as nat, nr_width, theme)) + seq![
        Seq::empty(),
    ]
}

// ---------------------------------------------------------------------------
// Tables

/// The number of columns of a table: the length of its longest row.
pub open spec fn column_count(rows: Seq<Seq<Seq<char>>>) -> nat
    decreases rows.len(),
{
    if rows.len() == 0 {
        0
    } else {
        let c = column_count(rows.drop_last());
        if rows.last().len() > c {
            rows.last().len()
        } else {
            c
        }
    }
}

/// The width in bytes of column `i`: the byte length of its longest cell.
pub open spec fn column_width(rows: Seq<Seq<Seq<char>>>, i: int) -> nat
    decreases rows.len(),
{
    if rows.len() == 0 {
        0
    } else {
        let w = column_width(rows.drop_last(), i);
        if i < rows.last().len() && str_len(rows.last()[i]) > w {
            str_len(rows.last()[i])
        } else {
            w
        }
    }
}

/// The widths of all columns.
pub open spec fn column_widths(rows: Seq<Seq<Seq<char>>>) -> Seq<nat> {
    Seq::new(column_count(rows), |i: int| column_width(rows, i))
}

/// The spans of a border line after its left corner, for the first `k`
/// columns: each column's run of `fill`, two longer than the column, with
/// `mid` between columns.
pub open spec fn border_cells(widths: Seq<nat>, k: nat, mid: char, fill: char, theme: Theme) -> Seq<
    SpanView,
>
    decreases k,
{
    if k == 0 {
        Seq::empty()
    } else {
        let prev = border_cells(widths, (k - 1) as nat, mid, fill, theme);
        let cell = prev.push(span(repeat(seq![fill], widths[k - 1] + 2), theme.table_border));
        if k < widths.len() {
            cell.push(span(seq![mid], theme.table_border))
        } else {
            cell
        }
    }
}

/// A border line of a table.
pub open spec fn border_line(widths: Seq<nat>, left: char, mid: char, right: char, theme: Theme) -> Seq<
    SpanView,
> {
    seq![span(seq![left], theme.table_border)] + border_cells(widths, widths.len(), mid, '─', theme)
        + seq![span(seq![right], theme.table_border)]
}

/// The cell of `row` in column `i`, empty where the row is short.
pub open spec fn cell_at(row: Seq<Seq<char>>, i: int) -> Seq<char> {
    if i < row.len() {
        row[i]
    } else {
        Seq::empty()
    }
}

/// The spans of a table row after its left bar, for the first `k` columns:
/// each cell padded to its column's width between two spaces, then a bar.
pub open spec fn row_cells(row: Seq<Seq<char>>, widths: Seq<nat>, k: nat, style: Style, theme: Theme) -> Seq<
    SpanView,
>
    decreases k,
{
    if k == 0 {
        Seq::empty()
    } else {
        row_cells(row, widths, (k - 1) as nat, style, theme).push(
            span(seq![' '] + pad_right(cell_at(row, k - 1), widths[k - 1]) + seq![' '], style),
        ).push(span(seq!['│'], theme.table_border))
    }
}

/// The rendered line of one table row.
pub open spec fn row_line(row: Seq<Seq<char>>, widths: Seq<nat>, style: Style, theme: Theme) -> Seq<
    SpanView,
> {
    seq![span(seq!['│'], theme.table_border)] + row_cells(row, widths, widths.len(), style, theme)
}

/// The rendered lines of the first `k` rows: the head row in the header
/// style followed by a separator, the others in the cell style.
pub open spec fn table_body(rows: Seq<Seq<Seq<char>>>, widths: Seq<nat>, k: nat, theme: Theme) -> Seq<
    Seq<SpanView>,
>
    decreases k,
{
    if k == 0 {
        Seq::empty()
    } else if k == 1 {
        seq![
            row_line(rows[0], widths, theme.table_header, theme),
            border_line(widths, '├', '┼', '┤', theme),
        ]
    } else {
        table_body(rows, widths, (k - 1) as nat, theme).push(
            row_line(rows[k - 1], widths, theme.table_cell, theme),
        )
    }
}

/// The rendered lines of a table: nothing for a table without rows, else a
/// box drawn around the rows, columns as wide as their widest cell, then an
/// empty line.
pub open spec fn table_lines(rows: Seq<Seq<Seq<char>>>, theme: Theme) -> Seq<Seq<SpanView>> {
    if rows.len() == 0 {
        Seq::empty()
    } else {
        let widths = column_widths(rows);
        seq![border_line(widths, '┌', '┬', '┐', theme)] + table_body(
            rows,
            widths,
            rows.len(),
            theme,
        ) + seq![border_line(widths, '└', '┴', '┘', theme), Seq::empty()]
    }
}

// ---------------------------------------------------------------------------
// The renderer's state and its steps

/// The state of the renderer between two events.
pub struct RenderState {
    /// The lines rendered so far.
    pub lines: Seq<Seq<SpanView>>,
    /// The headings met so far.
    pub headings: Seq<HeadingView>,
    /// The spans of the line being built.
    pub spans: Seq<SpanView>,
    /// The styles of the open elements; the last one applies to text.
    pub styles: Seq<Style>,
    pub in_table: bool,
    pub rows: Seq<Seq<Seq<char>>>,
    pub row: Seq<Seq<char>>,
    pub cell: Seq<char>,
    pub in_code: bool,
    pub code_lines: Seq<Seq<char>>,
    pub lang: Seq<char>,
    /// How many lists are open.
    pub depth: nat,
    /// How many block quotes are open.
    pub quotes: nat,
    /// The destination of the open link.
    pub link: Seq<char>,
}

/// The state before the first event.
pub open spec fn initial_state() -> RenderState {
    RenderState {
        lines: Seq::empty(),
        headings: Seq::empty(),
        spans: Seq::empty(),
        styles: seq![plain_style()],
        in_table: false,
        rows: Seq::empty(),
        row: Seq::empty(),
        cell: Seq::empty(),
        in_code: false,
        code_lines: Seq::empty(),
        lang: Seq::empty(),
        depth: 0,
        quotes: 0,
        link: Seq::empty(),
    }
}

/// The style of a heading of `level`.
pub open spec fn heading_style(level: u8, theme: Theme) -> Style {
    if level == 1 {
        theme.h1
    } else if level == 2 {
        theme.h2
    } else if level == 3 {
        theme.h3
    } else {
        theme.h_other
    }
}

/// The style that an element opened by `tag` gives its text.
pub open spec fn start_style(st: RenderState, tag: MdTag, theme: Theme) -> Style {
    match tag {
        MdTag::Heading(level) => heading_style(level, theme),
        MdTag::Emphasis => theme.emphasis,
        MdTag::Strong => theme.strong,
        MdTag::BlockQuote => theme.blockquote,
        MdTag::Link => theme.link,
        _ => st.styles.last(),
    }
}

/// The state after the start of an element.
pub open spec fn start_step(st: RenderState, tag: MdTag, arg: Seq<char>, theme: Theme) -> RenderState {
    let style = start_style(st, tag, theme);
    let st1 = match tag {
        MdTag::CodeBlock => RenderState { in_code: true, code_lines: Seq::empty(), lang: arg, ..st },
        MdTag::Link => RenderState { link: arg, ..st },
        MdTag::List => RenderState { depth: st.depth + 1, ..st },
        MdTag::Item => RenderState {
            lines: if st.spans.len() > 0 {
                st.lines.push(quoted(st.spans, st.quotes, theme))
            } else {
                st.lines
            },
            spans: seq![span(repeat(seq![' ', ' '], st.depth) + seq!['•', ' '], theme.list_bullet)],
            ..st
        },
        MdTag::BlockQuote => RenderState { quotes: st.quotes + 1, ..st },
        MdTag::Table => RenderState { in_table: true, rows: Seq::empty(), ..st },
        MdTag::TableHead | MdTag::TableRow => RenderState { row: Seq::empty(), ..st },
        MdTag::TableCell => RenderState { cell: Seq::empty(), ..st },
        _ => st,
    };
    RenderState { styles: st.styles.push(style), ..st1 }
}

/// The lines that show a heading of `level` with text `text`: the text (upper
/// case for level 1) in the heading's style, underlined with `═` for level 1
/// and `─` for level 2, then an empty line.
pub open spec fn heading_lines(text: Seq<char>, level: u8, theme: Theme) -> Seq<Seq<SpanView>> {
    let style = heading_style(level, theme);
    if level == 1 {
        seq![
            seq![span(upper_case(text), style)],
            seq![span(repeat(seq!['═'], str_len(text)), theme.border)],
            Seq::empty(),
        ]
    } else if level == 2 {
        seq![
            seq![span(text, style)],
            seq![span(repeat(seq!['─'], str_len(text)), theme.border)],
            Seq::empty(),
        ]
    } else {
        seq![seq![span(text, style)], Seq::empty()]
    }
}

/// The state after the end of an element.
pub open spec fn end_step(st: RenderState, tag: MdTag, theme: Theme) -> RenderState {
    let st = RenderState {
        styles: if st.styles.len() > 0 {
            st.styles.drop_last()
        } else {
            st.styles
        },
        ..st
    };
    match tag {
        MdTag::Heading(level) => {
            let text = line_text(st.spans);
            RenderState {
                headings: st.headings.push(
                    HeadingView { text, level, line_index: st.lines.len() as usize },
                ),
                lines: st.lines + heading_lines(text, level, theme),
                spans: Seq::empty(),
                ..st
            }
        },
        MdTag::Paragraph => RenderState {
            lines: st.lines.push(quoted(st.spans, st.quotes, theme)).push(Seq::empty()),
            spans: Seq::empty(),
            ..st
        },
        MdTag::BlockQuote => RenderState {
            lines: st.lines.push(quoted(st.spans, st.quotes, theme)).push(Seq::empty()),
            spans: Seq::empty(),
            quotes: if st.quotes > 0 {
                (st.quotes - 1) as nat
            } else {
                0
            },
            ..st
        },
        MdTag::Item => RenderState {
            lines: st.lines.push(quoted(st.spans, st.quotes, theme)),
            spans: Seq::empty(),
            ..st
        },
        MdTag::List => {
            let depth = if st.depth > 0 {
                (st.depth - 1) as nat
            } else {
                0
            };
            RenderState {
                depth,
                lines: if depth == 0 {
                    st.lines.push(Seq::empty())
                } else {
                    st.lines
                },
                ..st
            }
        },
        MdTag::CodeBlock => RenderState {
            in_code: false,
            lines: st.lines + code_block_lines(st.lang, st.code_lines, theme),
            code_lines: Seq::empty(),
            ..st
        },
        MdTag::TableCell => RenderState { row: st.row.push(st.cell), cell: Seq::empty(), ..st },
        MdTag::TableHead | MdTag::TableRow => RenderState {
            rows: st.rows.push(st.row),
            row: Seq::empty(),
            ..st
        },
        MdTag::Table => RenderState {
            in_table: false,
            lines: st.lines + table_lines(st.rows, theme),
            rows: Seq::empty(),
            ..st
        },
        MdTag::Link => if st.link.len() > 0 {
            RenderState {
                spans: st.spans.push(
                    span(seq![' ', '('] + st.link + seq![')'], theme.link),
                ),
                link: Seq::empty(),
                ..st
            }
        } else {
            st
        },
        _ => st,
    }
}

/// The state after a text event.
pub open spec fn text_step(st: RenderState, t: Seq<char>, theme: Theme) -> RenderState {
    if st.in_code {
        RenderState { code_lines: st.code_lines + split_nl(t), ..st }
    } else if st.in_table {
        RenderState { cell: st.cell + t, ..st }
    } else {
        let (lines, spans) = text_into(
            st.lines,
            st.spans,
            text_lines(t),
            st.styles.last(),
            st.quotes,
            theme,
        );
        RenderState { lines, spans, ..st }
    }
}

/// The state after one event; `width` is the width of the screen, which a
/// horizontal rule spans.
pub open spec fn step(st: RenderState, ev: EventView, theme: Theme, width: u16) -> RenderState {
    match ev {
        EventView::Start(tag, arg) => start_step(st, tag, arg, theme),
        EventView::End(tag) => end_step(st, tag, theme),
        EventView::Text(t) => text_step(st, t, theme),
        EventView::Code(c) => if st.in_table {
            RenderState { cell: st.cell + seq!['`'] + c + seq!['`'], ..st }
        } else {
            RenderState {
                spans: st.spans.push(span(seq![' '] + c + seq![' '], theme.inline_code)),
                ..st
            }
        },
        EventView::SoftBreak | EventView::HardBreak => RenderState {
            lines: st.lines.push(quoted(st.spans, st.quotes, theme)),
            spans: Seq::empty(),
            ..st
        },
        EventView::Rule => {
            let lines = if st.spans.len() > 0 {
                st.lines.push(quoted(st.spans, st.quotes, theme))
            } else {
                st.lines
            };
            RenderState {
                lines: lines.push(seq![span(repeat(seq!['─'], width as nat), theme.rule)]).push(
                    Seq::empty(),
                ),
                spans: Seq::empty(),
                ..st
            }
        },
        EventView::Other => st,
    }
}

/// The state after the events `events`, one after the other.
pub open spec fn run(events: Seq<EventView>, theme: Theme, width: u16) -> RenderState
    decreases events.len(),
{
    if events.len() == 0 {
        initial_state()
    } else {
        step(run(events.drop_last(), theme, width), events.last(), theme, width)
    }
}

/// The rendered document: the lines (with the last line if it is not empty)
/// and the headings.
pub open spec fn render(events: Seq<EventView>, theme: Theme, width: u16) -> (
    Seq<Seq<SpanView>>,
    Seq<HeadingView>,
) {
    let st = run(events, theme, width);
    let lines = if st.spans.len() > 0 {
        st.lines.push(quoted(st.spans, st.quotes, theme))
    } else {
        st.lines
    };
    (lines, st.headings)
}

/// How many elements are open after `events`: starts minus ends.
pub open spec fn open_count(events: Seq<EventView>) -> int
    decreases events.len(),
{
    if events.len() == 0 {
        0
    } else {
        open_count(events.drop_last()) + match events.last() {
            EventView::Start(_, _) => 1int,
            EventView::End(_) => -1int,
            _ => 0int,
        }
    }
}

/// No prefix of `events` ends more elements than it starts.
pub open spec fn starts_cover_ends(events: Seq<EventView>) -> bool {
    forall|k: int| 0 <= k <= events.len() ==> open_count(#[trigger] events.take(k)) >= 0
}

/// Every element that `events` starts is ended, and never before it starts.
pub open spec fn balanced(events: Seq<EventView>) -> bool {
    starts_cover_ends(events) && open_count(events) == 0
}

// ---------------------------------------------------------------------------
// Laws of rendering

/// The text of the line that shows a heading: upper case for level 1.
pub open spec fn heading_shown(h: HeadingView) -> Seq<char> {
    if h.level == 1 {
        upper_case(h.text)
    } else {
        h.text
    }
}

/// Every heading names a line of `lines` that shows its text.
pub open spec fn headings_point_at(lines: Seq<Seq<SpanView>>, headings: Seq<HeadingView>) -> bool {
    forall|i: int|
        0 <= i < headings.len() ==> (#[trigger] headings[i]).line_index < lines.len()
            && line_text(lines[headings[i].line_index as int]) == heading_shown(headings[i])
}

/// The headings' lines come in the order of the headings.
pub open spec fn headings_ordered(headings: Seq<HeadingView>) -> bool {
    forall|i: int, j: int|
        0 <= i < j < headings.len() ==> (#[trigger] headings[i]).line_index
            < (#[trigger] headings[j]).line_index
}

proof fn lemma_text_into_extends(
    lines: Seq<Seq<SpanView>>,
    spans: Seq<SpanView>,
    pieces: Seq<Seq<char>>,
    style: Style,
    quotes: nat,
    theme: Theme,
)
    ensures
        lines.is_prefix_of(text_into(lines, spans, pieces, style, quotes, theme).0),
    decreases pieces.len(),
{
    if pieces.len() > 0 {
        lemma_text_into_extends(lines, spans, pieces.drop_last(), style, quotes, theme);
    }
}

proof fn lemma_line_text_single(c: Seq<char>, style: Style)
    ensures
        line_text(seq![span(c, style)]) == c,
{
    assert(seq![span(c, style)].drop_last() =~= Seq::<SpanView>::empty());
    assert(line_text(Seq::<SpanView>::empty()) =~= Seq::<char>::empty());
    assert(seq![span(c, style)].last() == span(c, style));
    assert(Seq::<char>::empty() + c =~= c);
}

/// One step of rendering only appends lines, and adds at most one heading,
/// which points at the first line added.
proof fn lemma_step_extends(st: RenderState, ev: EventView, theme: Theme, width: u16)
    ensures
        ({
            let st2 = step(st, ev, theme, width);
            &&& st.lines.is_prefix_of(st2.lines)
            &&& (st2.headings == st.headings || (st2.headings == st.headings.push(
                st2.headings.last(),
            ) && st2.headings.last().line_index == st.lines.len() as usize && st.lines.len() < st2.lines.len()
                && line_text(st2.lines[st.lines.len() as int]) == heading_shown(
                st2.headings.last(),
            )))
        }),
{
    let st2 = step(st, ev, theme, width);
    match ev {
        EventView::Text(t) => {
            if !st.in_code && !st.in_table {
                lemma_text_into_extends(st.lines, st.spans, text_lines(t), st.styles.last(), st.quotes, theme);
            }
        },
        EventView::End(tag) => {
            match tag {
                MdTag::Heading(level) => {
                    let st1 = RenderState {
                        styles: if st.styles.len() > 0 {
                            st.styles.drop_last()
                        } else {
                            st.styles
                        },
                        ..st
                    };
                    let text = line_text(st1.spans);
                    lemma_line_text_single(upper_case(text), heading_style(level, theme));
                    lemma_line_text_single(text, heading_style(level, theme));
                    assert(st2.lines[st.lines.len() as int] == heading_lines(text, level, theme)[0]);
                },
                _ => {},
            }
        },
        _ => {},
    }
}

/// Every heading tag among `events` has a level from 1 to 6.
pub open spec fn heading_levels_valid(events: Seq<EventView>) -> bool {
    forall|i: int|
        0 <= i < events.len() ==> match #[trigger] events[i] {
            EventView::Start(MdTag::Heading(l), _) => 1 <= l <= 6,
            EventView::End(MdTag::Heading(l)) => 1 <= l <= 6,
            _ => true,
        }
}

/// Every heading has a level from 1 to 6.
pub open spec fn heading_levels_in_range(headings: Seq<HeadingView>) -> bool {
    forall|i: int| 0 <= i < headings.len() ==> 1 <= (#[trigger] headings[i]).level <= 6
}

/// Headings of rendered events take their levels from the events' heading
/// tags.
pub proof fn lemma_heading_levels(events: Seq<EventView>, theme: Theme, width: u16)
    requires
        heading_levels_valid(events),
    ensures
        heading_levels_in_range(render(events, theme, width).1),
    decreases events.len(),
{
    if events.len() > 0 {
        let prev = events.drop_last();
        assert forall|i: int| 0 <= i < prev.len() implies match #[trigger] prev[i] {
            EventView::Start(MdTag::Heading(l), _) => 1 <= l <= 6,
            EventView::End(MdTag::Heading(l)) => 1 <= l <= 6,
            _ => true,
        } by {
            assert(prev[i] == events[i]);
        }
        lemma_heading_levels(prev, theme, width);
        let st = run(prev, theme, width);
        let st2 = run(events, theme, width);
        let last = events.last();
        assert(match events[events.len() - 1] {
            EventView::Start(MdTag::Heading(l), _) => 1 <= l <= 6,
            EventView::End(MdTag::Heading(l)) => 1 <= l <= 6,
            _ => true,
        });
        assert forall|i: int| 0 <= i < st2.headings.len() implies 1 <= (#[trigger] st2.headings[i]).level
            <= 6 by {
            if i < st.headings.len() {
                lemma_step_extends(st, last, theme, width);
                assert(st2.headings[i] == st.headings[i]);
            }
        }
    }
}

/// Headings stay pointed at their lines and in order, step by step.
proof fn lemma_run_headings(events: Seq<EventView>, theme: Theme, width: u16)
    requires
        run(events, theme, width).lines.len() <= usize::MAX,
    ensures
        headings_point_at(run(events, theme, width).lines, run(events, theme, width).headings),
        headings_ordered(run(events, theme, width).headings),
    decreases events.len(),
{
    if events.len() > 0 {
        let st = run(events.drop_last(), theme, width);
        let st2 = run(events, theme, width);
        lemma_step_extends(st, events.last(), theme, width);
        assert(st.lines.len() <= st2.lines.len());
        lemma_run_headings(events.drop_last(), theme, width);
        assert forall|i: int| 0 <= i < st2.headings.len() implies (#[trigger] st2.headings[i]).line_index
            < st2.lines.len() && line_text(st2.lines[st2.headings[i].line_index as int])
            == heading_shown(st2.headings[i]) by {
            if i < st.headings.len() {
                assert(st2.headings[i] == st.headings[i]);
                assert(st2.lines[st.headings[i].line_index as int] == st.lines[st.headings[i].line_index as int]);
            }
        }
        assert forall|i: int, j: int| 0 <= i < j < st2.headings.len() implies (
        #[trigger] st2.headings[i]).line_index < (#[trigger] st2.headings[j]).line_index by {
            if j < st.headings.len() {
                assert(st2.headings[i] == st.headings[i]);
                assert(st2.headings[j] == st.headings[j]);
            } else {
                assert(st2.headings[i] == st.headings[i]);
            }
        }
    }
}

/// The headings index of a rendered document leads to its sections: every
/// heading names a rendered line, that line shows the heading's text (in
/// upper case for a level 1 heading), and the headings come in document
/// order, their lines strictly ascending. (A document of more lines than
/// `usize` counts is out of reach.)
pub proof fn lemma_headings_lead_to_their_lines(events: Seq<EventView>, theme: Theme, width: u16)
    requires
        render(events, theme, width).0.len() <= usize::MAX,
    ensures
        headings_point_at(render(events, theme, width).0, render(events, theme, width).1),
        headings_ordered(render(events, theme, width).1),
{
    let st = run(events, theme, width);
    let (lines, hs) = render(events, theme, width);
    assert(st.lines.is_prefix_of(lines));
    lemma_run_headings(events, theme, width);
    assert forall|i: int| 0 <= i < hs.len() implies (#[trigger] hs[i]).line_index < lines.len()
        && line_text(lines[hs[i].line_index as int]) == heading_shown(hs[i]) by {
        assert(lines[hs[i].line_index as int] == st.lines[hs[i].line_index as int]);
    }
}

// ---------------------------------------------------------------------------
// Tables keep their columns aligned

/// The width of a table line for the given column widths: a bar, then for
/// each column its cell between two spaces and a bar.
pub open spec fn table_width(widths: Seq<nat>, k: nat) -> nat
    decreases k,
{
    if k == 0 {
        0
    } else {
        table_width(widths, (k - 1) as nat) + widths[k - 1] + 3
    }
}

proof fn lemma_line_text_concat(a: Seq<SpanView>, b: Seq<SpanView>)
    ensures
        line_text(a + b) == line_text(a) + line_text(b),
    decreases b.len(),
{
    if b.len() == 0 {
        assert(a + b =~= a);
        assert(line_text(b) =~= Seq::<char>::empty());
        assert(line_text(a) + line_text(b) =~= line_text(a));
    } else {
        lemma_line_text_concat(a, b.drop_last());
        assert((a + b).drop_last() =~= a + b.drop_last());
        assert(line_text(a) + line_text(b) =~= line_text(a) + line_text(b.drop_last()) + b.last().content);
    }
}

proof fn lemma_line_text_push(a: Seq<SpanView>, x: SpanView)
    ensures
        line_text(a.push(x)) == line_text(a) + x.content,
{
    assert(a.push(x).drop_last() =~= a);
}

proof fn lemma_repeat_len(c: char, n: nat)
    ensures
        repeat(seq![c], n).len() == n,
    decreases n,
{
    if n > 0 {
        lemma_repeat_len(c, (n - 1) as nat);
    }
}

proof fn lemma_border_cells_width(widths: Seq<nat>, k: nat, mid: char, fill: char, theme: Theme)
    requires
        k <= widths.len(),
    ensures
        line_text(border_cells(widths, k, mid, fill, theme)).len() + (if k > 0 && k == widths.len() {
            1int
        } else {
            0int
        }) == table_width(widths, k),
    decreases k,
{
    if k > 0 {
        lemma_border_cells_width(widths, (k - 1) as nat, mid, fill, theme);
        lemma_repeat_len(fill, widths[k - 1] + 2);
        let prev = border_cells(widths, (k - 1) as nat, mid, fill, theme);
        let fill_span = span(repeat(seq![fill], widths[k - 1] + 2), theme.table_border);
        let cell = prev.push(fill_span);
        lemma_line_text_push(prev, fill_span);
        if k < widths.len() {
            lemma_line_text_push(cell, span(seq![mid], theme.table_border));
        }
    }
}

proof fn lemma_border_line_width(widths: Seq<nat>, left: char, mid: char, right: char, theme: Theme)
    requires
        widths.len() > 0,
    ensures
        line_text(border_line(widths, left, mid, right, theme)).len() == table_width(widths, widths.len()) + 1,
{
    let first = seq![span(seq![left], theme.table_border)];
    let cells = border_cells(widths, widths.len(), mid, '─', theme);
    let last = seq![span(seq![right], theme.table_border)];
    lemma_border_cells_width(widths, widths.len(), mid, '─', theme);
    lemma_line_text_concat(first, cells);
    lemma_line_text_concat(first + cells, last);
    lemma_line_text_single(seq![left], theme.table_border);
    lemma_line_text_single(seq![right], theme.table_border);
}

proof fn lemma_row_cells_width(row: Seq<Seq<char>>, widths: Seq<nat>, k: nat, style: Style, theme: Theme)
    requires
        k <= widths.len(),
        forall|i: int| 0 <= i < k ==> #[trigger] cell_at(row, i).len() <= widths[i],
    ensures
        line_text(row_cells(row, widths, k, style, theme)).len() == table_width(widths, k),
    decreases k,
{
    if k > 0 {
        lemma_row_cells_width(row, widths, (k - 1) as nat, style, theme);
        let cell = cell_at(row, k - 1);
        assert(cell.len() <= widths[k - 1]);
        lemma_repeat_len(' ', (widths[k - 1] - cell.len()) as nat);
        assert(pad_right(cell, widths[k - 1]).len() == widths[k - 1]);
        let prev = row_cells(row, widths, (k - 1) as nat, style, theme);
        let padded = span(seq![' '] + pad_right(cell, widths[k - 1]) + seq![' '], style);
        let one = prev.push(padded);
        lemma_line_text_push(prev, padded);
        lemma_line_text_push(one, span(seq!['│'], theme.table_border));
    }
}

proof fn lemma_row_line_width(row: Seq<Seq<char>>, widths: Seq<nat>, style: Style, theme: Theme)
    requires
        forall|i: int| 0 <= i < widths.len() ==> #[trigger] cell_at(row, i).len() <= widths[i],
    ensures
        line_text(row_line(row, widths, style, theme)).len() == table_width(widths, widths.len()) + 1,
{
    let first = seq![span(seq!['│'], theme.table_border)];
    lemma_row_cells_width(row, widths, widths.len(), style, theme);
    lemma_line_text_concat(first, row_cells(row, widths, widths.len(), style, theme));
    lemma_line_text_single(seq!['│'], theme.table_border);
}

proof fn lemma_column_width_bound(rows: Seq<Seq<Seq<char>>>, r: int, i: int)
    requires
        0 <= r < rows.len(),
        0 <= i < rows[r].len(),
    ensures
        str_len(rows[r][i]) <= column_width(rows, i),
    decreases rows.len(),
{
    if r < rows.len() - 1 {
        lemma_column_width_bound(rows.drop_last(), r, i);
    }
}

proof fn lemma_table_body_width(rows: Seq<Seq<Seq<char>>>, widths: Seq<nat>, k: nat, theme: Theme)
    requires
        k <= rows.len(),
        widths.len() > 0,
        forall|r: int, i: int|
            0 <= r < rows.len() && 0 <= i < widths.len() ==> #[trigger] cell_at(rows[r], i).len() <= widths[i],
    ensures
        forall|j: int|
            0 <= j < table_body(rows, widths, k, theme).len() ==> #[trigger] line_text(
                table_body(rows, widths, k, theme)[j],
            ).len() == table_width(widths, widths.len()) + 1,
    decreases k,
{
    if k == 1 {
        assert forall|i: int| 0 <= i < widths.len() implies #[trigger] cell_at(rows[0], i).len() <= widths[i] by {
            assert(cell_at(rows[0], i).len() <= widths[i]);
        }
        lemma_row_line_width(rows[0], widths, theme.table_header, theme);
        lemma_border_line_width(widths, '├', '┼', '┤', theme);
    } else if k > 1 {
        lemma_table_body_width(rows, widths, (k - 1) as nat, theme);
        assert forall|i: int| 0 <= i < widths.len() implies #[trigger] cell_at(rows[k - 1], i).len()
            <= widths[i] by {
            assert(cell_at(rows[k - 1], i).len() <= widths[i]);
        }
        lemma_row_line_width(rows[k - 1], widths, theme.table_cell, theme);
        let prev = table_body(rows, widths, (k - 1) as nat, theme);
        let cur = table_body(rows, widths, k, theme);
        assert forall|j: int| 0 <= j < cur.len() implies #[trigger] line_text(cur[j]).len() == table_width(
            widths,
            widths.len(),
        ) + 1 by {
            if j < prev.len() {
                assert(cur[j] == prev[j]);
            }
        }
    }
}

proof fn lemma_utf8_len_at_least(s: Seq<char>)
    ensures
        utf8_len(s) >= s.len(),
    decreases s.len(),
{
    if s.len() > 0 {
        lemma_utf8_len_at_least(s.drop_last());
    }
}

/// Tables keep their columns aligned: all lines of a table's box, its
/// borders and its rows, are equally long, and so are all its columns.
/// (Columns are as wide as their longest cell in bytes, which is never less
/// than its number of characters; a cell longer than `usize` counts is out of
/// reach.)
pub proof fn lemma_table_columns_aligned(rows: Seq<Seq<Seq<char>>>, theme: Theme)
    requires
        column_count(rows) > 0,
        forall|r: int, i: int|
            0 <= r < rows.len() && 0 <= i < rows[r].len() ==> utf8_len(#[trigger] rows[r][i]) <= usize::MAX,
    ensures
        forall|j: int|
            0 <= j < table_lines(rows, theme).len() - 1 ==> #[trigger] line_text(table_lines(rows, theme)[j]).len()
                == table_width(column_widths(rows), column_count(rows)) + 1,
{
    let widths = column_widths(rows);
    assert(rows.len() > 0);
    assert forall|r: int, i: int| 0 <= r < rows.len() && 0 <= i < widths.len() implies #[trigger] cell_at(
        rows[r],
        i,
    ).len() <= widths[i] by {
        if i < rows[r].len() {
            lemma_column_width_bound(rows, r, i);
            lemma_utf8_len_at_least(rows[r][i]);
            assert(utf8_len(rows[r][i]) <= usize::MAX);
            assert(str_len(rows[r][i]) == utf8_len(rows[r][i]));
        }
    }
    lemma_table_body_width(rows, widths, rows.len(), theme);
    lemma_border_line_width(widths, '┌', '┬', '┐', theme);
    lemma_border_line_width(widths, '└', '┴', '┘', theme);
    let top = seq![border_line(widths, '┌', '┬', '┐', theme)];
    let body = table_body(rows, widths, rows.len(), theme);
    let tail = seq![border_line(widths, '└', '┴', '┘', theme), Seq::<SpanView>::empty()];
    let all = table_lines(rows, theme);
    assert(all == top + body + tail);
    assert forall|j: int| 0 <= j < all.len() - 1 implies #[trigger] line_text(all[j]).len() == table_width(
        widths,
        widths.len(),
    ) + 1 by {
        if j == 0 {
            assert(all[j] == top[0]);
        } else if j < 1 + body.len() {
            assert(all[j] == body[j - 1]);
        } else {
            assert(all[j] == tail[0]);
        }
    }
}

proof fn lemma_table_width_mono(widths: Seq<nat>, i: nat, k: nat)
    requires
        i <= k <= widths.len(),
    ensures
        table_width(widths, i) <= table_width(widths, k),
    decreases k - i,
{
    if i < k {
        lemma_table_width_mono(widths, i, (k - 1) as nat);
    }
}


/// Where the cells stand in the text of a row: cell `i` starts one
/// character after the first `i` columns.
proof fn lemma_row_cells_text(row: Seq<Seq<char>>, widths: Seq<nat>, k: nat, style: Style, theme: Theme)
    requires
        k <= widths.len(),
        forall|i: int| 0 <= i < k ==> #[trigger] cell_at(row, i).len() <= widths[i],
    ensures
        line_text(row_cells(row, widths, k, style, theme)).len() == table_width(widths, k),
        forall|i: int|
            0 <= i < k ==> line_text(row_cells(row, widths, k, style, theme)).subrange(
                table_width(widths, i as nat) + 1int,
                table_width(widths, i as nat) + 1int + cell_at(row, i).len(),
            ) == #[trigger] cell_at(row, i),
    decreases k,
{
    lemma_row_cells_width(row, widths, k, style, theme);
    if k > 0 {
        let km = (k - 1) as nat;
        lemma_row_cells_text(row, widths, km, style, theme);
        let prev = row_cells(row, widths, km, style, theme);
        let cell = cell_at(row, km as int);
        assert(cell.len() <= widths[km as int]);
        lemma_repeat_len(' ', (widths[km as int] - cell.len()) as nat);
        let padded_text = seq![' '] + pad_right(cell, widths[km as int]) + seq![' '];
        let padded = span(padded_text, style);
        let one = prev.push(padded);
        lemma_line_text_push(prev, padded);
        lemma_line_text_push(one, span(seq!['│'], theme.table_border));
        let tp = line_text(prev);
        let t = line_text(row_cells(row, widths, k, style, theme));
        assert(t == tp + padded_text + seq!['│']);
        assert forall|i: int| 0 <= i < k implies t.subrange(
            table_width(widths, i as nat) + 1int,
            table_width(widths, i as nat) + 1int + cell_at(row, i).len(),
        ) == #[trigger] cell_at(row, i) by {
            let a: int = table_width(widths, i as nat) + 1int;
            let b: int = a + cell_at(row, i).len();
            if i < km {
                lemma_table_width_mono(widths, (i + 1) as nat, km);
                assert(cell_at(row, i).len() <= widths[i]);
                assert(b <= tp.len());
                assert(t.subrange(a, b) =~= tp.subrange(a, b));
            } else {
                assert(a == tp.len() + 1);
                assert(t.subrange(a, b) =~= cell);
            }
        }
    }
}

proof fn lemma_column_count_bound(rows: Seq<Seq<Seq<char>>>, r: int)
    requires
        0 <= r < rows.len(),
    ensures
        rows[r].len() <= column_count(rows),
    decreases rows.len(),
{
    if r < rows.len() - 1 {
        lemma_column_count_bound(rows.drop_last(), r);
    }
}

/// The lines of the first `k` rows: the head row, the separator, then each
/// further row in turn.
proof fn lemma_table_body_rows(rows: Seq<Seq<Seq<char>>>, widths: Seq<nat>, k: nat, theme: Theme)
    requires
        1 <= k <= rows.len(),
    ensures
        table_body(rows, widths, k, theme).len() == k + 1,
        table_body(rows, widths, k, theme)[0] == row_line(rows[0], widths, theme.table_header, theme),
        forall|j: int|
            1 <= j < k ==> #[trigger] table_body(rows, widths, k, theme)[j + 1] == row_line(
                rows[j],
                widths,
                theme.table_cell,
                theme,
            ),
    decreases k,
{
    if k > 1 {
        lemma_table_body_rows(rows, widths, (k - 1) as nat, theme);
        let prev = table_body(rows, widths, (k - 1) as nat, theme);
        let cur = table_body(rows, widths, k, theme);
        assert forall|j: int| 1 <= j < k implies #[trigger] cur[j + 1] == row_line(
            rows[j],
            widths,
            theme.table_cell,
            theme,
        ) by {
            if j < k - 1 {
                assert(cur[j + 1] == prev[j + 1]);
            }
        }
    }
}

/// A table shows every one of its rows: a table of `r` rows (its head row
/// included) takes `r + 4` lines (top border, head row, separator, the other
/// rows, bottom border, empty line), and the line of each row holds each of
/// its cells, cell `i` starting two characters after the first `i` columns.
/// (A cell longer than `usize` counts is out of reach.)
pub proof fn lemma_table_shows_every_row(rows: Seq<Seq<Seq<char>>>, theme: Theme)
    requires
        forall|r: int, i: int|
            0 <= r < rows.len() && 0 <= i < rows[r].len() ==> utf8_len(#[trigger] rows[r][i]) <= usize::MAX,
    ensures
        table_lines(rows, theme).len() == (if rows.len() == 0 {
            0
        } else {
            rows.len() + 4
        }),
        forall|j: int, i: int|
            0 <= j < rows.len() && 0 <= i < rows[j].len() ==> line_text(
                table_lines(rows, theme)[if j == 0 {
                    1
                } else {
                    j + 2
                }],
            ).subrange(
                table_width(column_widths(rows), i as nat) + 2int,
                table_width(column_widths(rows), i as nat) + 2int + rows[j][i].len(),
            ) == #[trigger] rows[j][i],
{
    if rows.len() > 0 {
        let widths = column_widths(rows);
        lemma_table_body_rows(rows, widths, rows.len(), theme);
        let top = seq![border_line(widths, '┌', '┬', '┐', theme)];
        let body = table_body(rows, widths, rows.len(), theme);
        let tail = seq![border_line(widths, '└', '┴', '┘', theme), Seq::<SpanView>::empty()];
        let all = table_lines(rows, theme);
        assert(all == top + body + tail);
        assert forall|j: int, i: int| 0 <= j < rows.len() && 0 <= i < rows[j].len() implies line_text(
            all[if j == 0 {
                1
            } else {
                j + 2
            }],
        ).subrange(
            table_width(widths, i as nat) + 2int,
            table_width(widths, i as nat) + 2int + rows[j][i].len(),
        ) == #[trigger] rows[j][i] by {
            let style = if j == 0 {
                theme.table_header
            } else {
                theme.table_cell
            };
            let li: int = if j == 0 {
                1
            } else {
                j + 2
            };
            if j == 0 {
                assert(all[li] == body[0]);
            } else {
                assert(all[li] == body[j + 1]);
            }
            assert(all[li] == row_line(rows[j], widths, style, theme));
            lemma_column_count_bound(rows, j);
            assert forall|c: int| 0 <= c < widths.len() implies #[trigger] cell_at(rows[j], c).len()
                <= widths[c] by {
                if c < rows[j].len() {
                    lemma_column_width_bound(rows, j, c);
                    lemma_utf8_len_at_least(rows[j][c]);
                    assert(utf8_len(rows[j][c]) <= usize::MAX);
                }
            }
            lemma_row_cells_text(rows[j], widths, widths.len(), style, theme);
            let first = seq![span(seq!['│'], theme.table_border)];
            let cells = row_cells(rows[j], widths, widths.len(), style, theme);
            lemma_line_text_concat(first, cells);
            lemma_line_text_single(seq!['│'], theme.table_border);
            let t = line_text(all[li]);
            assert(t == seq!['│'] + line_text(cells));
            assert(cell_at(rows[j], i) == rows[j][i]);
            let a: int = table_width(widths, i as nat) + 1int;
            let b: int = a + rows[j][i].len();
            assert(line_text(cells).subrange(a, b) == rows[j][i]);
            assert(i < widths.len());
            lemma_table_width_mono(widths, (i + 1) as nat, widths.len());
            assert(cell_at(rows[j], i).len() <= widths[i]);
            assert(b <= line_text(cells).len());
            assert(t.subrange(a + 1, b + 1) =~= line_text(cells).subrange(a, b));
        }
    }
}

// ---------------------------------------------------------------------------
// A heading's text is its text

/// The texts `ts` one after the other.
pub open spec fn concat(ts: Seq<Seq<char>>) -> Seq<char>
    decreases ts.len(),
{
    if ts.len() == 0 {
        Seq::empty()
    } else {
        concat(ts.drop_last()) + ts.last()
    }
}

/// Text events for the texts `ts`.
pub open spec fn text_events(ts: Seq<Seq<char>>) -> Seq<EventView> {
    ts.map_values(|t: Seq<char>| EventView::Text(t))
}

proof fn lemma_split_nl_single(t: Seq<char>)
    requires
        !t.contains('\n'),
    ensures
        split_nl(t) == seq![t],
    decreases t.len(),
{
    if t.len() > 0 {
        assert(!t.drop_last().contains('\n')) by {
            if t.drop_last().contains('\n') {
                let k = choose|k: int| 0 <= k < t.drop_last().len() && t.drop_last()[k] == '\n';
                assert(t[k] == '\n');
            }
        }
        lemma_split_nl_single(t.drop_last());
        assert(t.last() != '\n') by {
            assert(t[t.len() - 1] == t.last());
        }
        assert(t.drop_last().push(t.last()) =~= t);
        assert(seq![t.drop_last()].update(0, t.drop_last().push(t.last())) =~= seq![t]);
    } else {
        assert(t =~= Seq::<char>::empty());
    }
}

/// The state after the text events for `ts` inside a heading: the texts
/// are the line's spans, nothing else changes.
proof fn lemma_heading_texts(base: Seq<EventView>, ts: Seq<Seq<char>>, theme: Theme, width: u16)
    requires
        run(base, theme, width).spans.len() == 0,
        !run(base, theme, width).in_code,
        !run(base, theme, width).in_table,
        forall|i: int| 0 <= i < ts.len() ==> !(#[trigger] ts[i]).contains('\n'),
    ensures
        ({
            let st = run(base + text_events(ts), theme, width);
            let st0 = run(base, theme, width);
            &&& line_text(st.spans) == concat(ts)
            &&& st == (RenderState { spans: st.spans, ..st0 })
        }),
    decreases ts.len(),
{
    let st0 = run(base, theme, width);
    if ts.len() == 0 {
        assert(base + text_events(ts) =~= base);
        assert(line_text(st0.spans) =~= Seq::<char>::empty());
    } else {
        let prev = ts.drop_last();
        lemma_heading_texts(base, prev, theme, width);
        let evs = base + text_events(ts);
        assert(evs.drop_last() =~= base + text_events(prev));
        assert(evs.last() == EventView::Text(ts.last()));
        let sp = run(base + text_events(prev), theme, width);
        let t = ts.last();
        assert(!t.contains('\n')) by {
            assert(ts[ts.len() - 1] == t);
        }
        lemma_split_nl_single(t);
        let style = sp.styles.last();
        let st = run(evs, theme, width);
        assert(st == step(sp, EventView::Text(t), theme, width));
        if t.len() == 0 {
            assert(text_lines(t) =~= Seq::<Seq<char>>::empty());
            assert(concat(ts) =~= concat(prev));
        } else {
            assert(text_lines(t) =~= seq![t]);
            assert(seq![t].drop_last() =~= Seq::<Seq<char>>::empty());
            assert(text_into(sp.lines, sp.spans, seq![t].drop_last(), style, sp.quotes, theme) == (
            sp.lines, sp.spans));
            assert(st.spans == sp.spans.push(span(t, style)));
            lemma_line_text_push(sp.spans, span(t, style));
        }
    }
}

/// A heading's text is its text alone: for a heading that starts on an empty
/// line, outside code blocks and tables (in a block quote or not), whose
/// content is text events without a line break, the heading recorded is the
/// texts one after the other, with its level, pointing at the next line.
pub proof fn lemma_heading_text_is_its_text(
    before: Seq<EventView>,
    level: u8,
    arg: Seq<char>,
    ts: Seq<Seq<char>>,
    theme: Theme,
    width: u16,
)
    requires
        run(before, theme, width).spans.len() == 0,
        !run(before, theme, width).in_code,
        !run(before, theme, width).in_table,
        forall|i: int| 0 <= i < ts.len() ==> !(#[trigger] ts[i]).contains('\n'),
    ensures
        run(
            before.push(EventView::Start(MdTag::Heading(level), arg)) + text_events(ts) + seq![
                EventView::End(MdTag::Heading(level)),
            ],
            theme,
            width,
        ).headings == run(before, theme, width).headings.push(
            HeadingView {
                text: concat(ts),
                level,
                line_index: run(before, theme, width).lines.len() as usize,
            },
        ),
{
    let base = before.push(EventView::Start(MdTag::Heading(level), arg));
    assert(base.drop_last() =~= before);
    lemma_heading_texts(base, ts, theme, width);
    let evs = base + text_events(ts) + seq![EventView::End(MdTag::Heading(level))];
    assert(evs.drop_last() =~= base + text_events(ts));
}

} // verus!
