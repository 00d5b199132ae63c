//! The renderer: turns markdown events into styled lines and headings, as
//! `markdown::render` states.
use vstd::prelude::*;
use crate::line::{
    append_spans, line_text, lines_view, push_line, push_span, span, spans_view, SpanView, StyledLine,
    StyledSpan,
};
use crate::markdown::{
    border_cells, border_line, cell_at, code_block_lines, code_line, column_count, column_width,
    column_widths, end_step, events_view, heading_lines, heading_style, headings_view,
    initial_state, open_count, render, row_cells, row_line, run, split_nl, start_step,
    quoted, starts_cover_ends, step, str_len, strip_trailing_empty, table_body, table_lines, text_into,
    text_lines, text_step, to_uppercase, upper_case, EventView, Heading, HeadingView, MdEvent,
    MdTag, RenderState,
};
use crate::style::{plain_style, Style, Theme};
use crate::text::{
    chars_of, decimal, pad_left, pad_right, push_char, push_decimal_padded_left,
    push_padded_right, push_repeat, push_str, repeat, str_byte_len, string_of, utf8_len,
};

verus! {

/// The view of a sequence of strings.
pub open spec fn strs_view(v: Seq<String>) -> Seq<Seq<char>> {
    v.map_values(|s: String| s@)
}

/// The view of a sequence of rows of strings.
pub open spec fn rows_view(v: Seq<Vec<String>>) -> Seq<Seq<Seq<char>>> {
    v.map_values(|r: Vec<String>| strs_view(r@))
}

fn push_string(v: &mut Vec<String>, s: String)
    ensures
        strs_view(final(v)@) == strs_view(old(v)@).push(s@),
{
    v.push(s);
    assert(strs_view(v@) =~= strs_view(old(v)@).push(s@));
}

/// The pieces of `t` between newlines.
pub fn split_newlines(t: &str) -> (r: Vec<String>)
    ensures
        strs_view(r@) == split_nl(t@),
{
    let cs = chars_of(t);
    let mut done: Vec<String> = Vec::new();
    let mut cur = String::new();
    let mut i: usize = 0;
    assert(cs@.take(0) =~= Seq::<char>::empty());
    while i < cs.len()
        invariant
            i <= cs.len(),
            cs@ == t@,
            split_nl(cs@.take(i as int)) == strs_view(done@).push(cur@),
        decreases cs.len() - i,
    {
        let c = cs[i];
        let ghost before = cs@.take(i as int);
        assert(cs@.take(i + 1).drop_last() =~= before);
        if c == '\n' {
            let mut piece = String::new();
            std::mem::swap(&mut piece, &mut cur);
            push_string(&mut done, piece);
            assert(split_nl(cs@.take(i + 1)) =~= strs_view(done@).push(cur@));
        } else {
            push_char(&mut cur, c);
            assert(split_nl(cs@.take(i + 1)) =~= strs_view(done@).push(cur@));
        }
        i = i + 1;
    }
    assert(cs@.take(cs.len() as int) =~= cs@);
    push_string(&mut done, cur);
    done
}

proof fn lemma_split_nl_nonempty(s: Seq<char>)
    ensures
        split_nl(s).len() >= 1,
    decreases s.len(),
{
    if s.len() > 0 {
        lemma_split_nl_nonempty(s.drop_last());
    }
}

/// The lines of `t` as `str::lines` yields them.
pub fn lines_of(t: &str) -> (r: Vec<String>)
    ensures
        strs_view(r@) == text_lines(t@),
{
    let p = split_newlines(t);
    proof {
        lemma_split_nl_nonempty(t@);
    }
    let n = p.len();
    let q = if p[n - 1].as_str().unicode_len() == 0 {
        n - 1
    } else {
        n
    };
    let ghost pv = split_nl(t@);
    let ghost qv = if pv.last().len() == 0 {
        pv.drop_last()
    } else {
        pv
    };
    assert(qv.len() == q);
    let mut out: Vec<String> = Vec::new();
    let mut i: usize = 0;
    while i < q
        invariant
            i <= q,
            q <= n,
            n == p.len(),
            pv == strs_view(p@),
            qv.len() == q,
            forall|j: int| 0 <= j < q ==> qv[j] == pv[j],
            text_lines(t@) == qv.map(
                |j: int, piece: Seq<char>|
                    if j < pv.len() - 1 && piece.len() > 0 && piece.last() == '\r' {
                        piece.drop_last()
                    } else {
                        piece
                    },
            ),
            strs_view(out@) == text_lines(t@).take(i as int),
        decreases q - i,
    {
        let cs = chars_of(p[i].as_str());
        let m = cs.len();
        let piece = if i < n - 1 && m > 0 && cs[m - 1] == '\r' {
            string_of(&cs, 0, m - 1)
        } else {
            string_of(&cs, 0, m)
        };
        assert(piece@ == text_lines(t@)[i as int]) by {
            assert(cs@ == qv[i as int]);
            assert(cs@.subrange(0, m - 1) =~= cs@.drop_last());
            assert(cs@.subrange(0, m as int) =~= cs@);
        }
        push_string(&mut out, piece);
        i = i + 1;
        assert(strs_view(out@) =~= text_lines(t@).take(i as int));
    }
    assert(text_lines(t@).take(q as int) =~= text_lines(t@));
    out
}

// ---------------------------------------------------------------------------
// Code blocks

proof fn lemma_strip_trailing_empty_take(v: Seq<Seq<char>>, n: int)
    requires
        0 <= n <= v.len(),
        forall|j: int| n <= j < v.len() ==> v[j].len() == 0,
    ensures
        strip_trailing_empty(v) == strip_trailing_empty(v.take(n)),
    decreases v.len() - n,
{
    if n < v.len() {
        assert(v.drop_last().take(n) =~= v.take(n));
        lemma_strip_trailing_empty_take(v.drop_last(), n);
    } else {
        assert(v.take(n) =~= v);
    }
}

/// Appends the lines of a code block (see `code_block_lines`).
pub fn render_code_block(
    lang: &str,
    code_lines: &Vec<String>,
    lines: &mut Vec<StyledLine>,
    theme: &Theme,
)
    ensures
        lines_view(final(lines)@) == lines_view(old(lines)@) + code_block_lines(
            lang@,
            strs_view(code_lines@),
            *theme,
        ),
{
    let ghost start = lines_view(lines@);
    let ghost cv = strs_view(code_lines@);
    let mut n = code_lines.len();
    while n > 0 && code_lines[n - 1].as_str().unicode_len() == 0
        invariant
            n <= code_lines.len(),
            cv == strs_view(code_lines@),
            forall|j: int| n <= j < cv.len() ==> cv[j].len() == 0,
        decreases n,
    {
        n = n - 1;
    }
    proof {
        lemma_strip_trailing_empty_take(cv, n as int);
        assert(strip_trailing_empty(cv.take(n as int)) == cv.take(n as int));
    }
    let ghost code = strip_trailing_empty(cv);
    let nr = crate::text::decimal_string(n as u64);
    let nr_width = nr.as_str().unicode_len();
    proof {
        reveal_strlit("  ");
        reveal_strlit(" │ ");
        assert("  "@ =~= seq![' ', ' ']);
        assert(" │ "@ =~= seq![' ', '│', ' ']);
        assert(code.len() == n);
        assert(nr_width == decimal(code.len()).len());
    }
    let ghost label: Seq<Seq<SpanView>> = if lang@.len() > 0 {
        seq![seq![span(seq![' ', ' '] + lang@, theme.code_label)]]
    } else {
        Seq::empty()
    };
    if lang.unicode_len() > 0 {
        let mut s = String::new();
        push_str(&mut s, "  ");
        push_str(&mut s, lang);
        push_line(lines, StyledLine::from_span(StyledSpan::styled(s, theme.code_label)));
    }
    assert(lines_view(lines@) =~= start + label);
    let mut i: usize = 0;
    while i < n
        invariant
            i <= n,
            n <= code_lines.len(),
            code == cv.take(n as int),
            cv == strs_view(code_lines@),
            nr_width == decimal(code.len()).len(),
            lines_view(lines@) == start + label + Seq::new(
                i as nat,
                |j: int| code_line(code[j], j as nat, nr_width as nat, *theme),
            ),
        decreases n - i,
    {
        proof {
            reveal_strlit("  ");
            reveal_strlit(" │ ");
            assert("  "@ =~= seq![' ', ' ']);
            assert(" │ "@ =~= seq![' ', '│', ' ']);
        }
        let mut nr_text = String::new();
        push_str(&mut nr_text, "  ");
        push_decimal_padded_left(&mut nr_text, (i + 1) as u64, nr_width);
        let mut spans: Vec<StyledSpan> = Vec::new();
        spans.push(StyledSpan::styled(nr_text, theme.code_line_nr));
        spans.push(StyledSpan::styled(String::from_str(" │ "), theme.border));
        spans.push(StyledSpan::styled(code_lines[i].clone(), theme.code_text));
        let ghost prev = lines_view(lines@);
        push_line(lines, StyledLine::from_spans(spans));
        proof {
            assert(code[i as int] == cv[i as int]);
            assert(nr_text@ =~= seq![' ', ' '] + pad_left(decimal(i as nat + 1), nr_width as nat));
            assert(spans@.len() == 3);
            assert(spans@[0]@ == span(seq![' ', ' '] + pad_left(decimal(i as nat + 1), nr_width as nat), theme.code_line_nr));
            assert(spans@[1]@ == span(seq![' ', '│', ' '], theme.border));
            assert(spans@[2]@ == span(code[i as int], theme.code_text));
            assert(spans_view(spans@) =~= code_line(code[i as int], i as nat, nr_width as nat, *theme));
        }
        i = i + 1;
        assert(lines_view(lines@) =~= start + label + Seq::new(
            i as nat,
            |j: int| code_line(code[j], j as nat, nr_width as nat, *theme),
        ));
    }
    push_line(lines, StyledLine::empty());
    assert(lines_view(lines@) =~= start + code_block_lines(lang@, cv, *theme));
}

// ---------------------------------------------------------------------------
// Tables

/// The view of column widths.
pub open spec fn widths_view(w: Seq<usize>) -> Seq<nat> {
    w.map_values(|x: usize| x as nat)
}

fn span_of_char(c: char, style: Style) -> (s: StyledSpan)
    ensures
        s@ == span(seq![c], style),
{
    let mut t = String::new();
    push_char(&mut t, c);
    assert(t@ =~= seq![c]);
    StyledSpan::styled(t, style)
}

/// One border line of a table (see `border_line`).
fn border(widths: &Vec<usize>, left: char, mid: char, right: char, theme: &Theme) -> (l: StyledLine)
    ensures
        l@ == border_line(widths_view(widths@), left, mid, right, *theme),
{
    let ghost wv = widths_view(widths@);
    let mut spans: Vec<StyledSpan> = Vec::new();
    push_span(&mut spans, span_of_char(left, theme.table_border));
    let mut i: usize = 0;
    while i < widths.len()
        invariant
            i <= widths.len(),
            wv == widths_view(widths@),
            spans_view(spans@) == seq![span(seq![left], theme.table_border)] + border_cells(
                wv,
                i as nat,
                mid,
                '─',
                *theme,
            ),
        decreases widths.len() - i,
    {
        let mut fill = String::new();
        push_repeat(&mut fill, "─", widths[i]);
        push_str(&mut fill, "─");
        push_str(&mut fill, "─");
        proof {
            reveal_strlit("─");
            assert("─"@ =~= seq!['─']);
            assert(repeat(seq!['─'], wv[i as int] + 2) =~= repeat(seq!['─'], wv[i as int] + 1) + seq!['─']);
            assert(repeat(seq!['─'], wv[i as int] + 1) =~= repeat(seq!['─'], wv[i as int]) + seq!['─']);
            assert(fill@ =~= repeat(seq!['─'], wv[i as int] + 2));
        }
        push_span(&mut spans, StyledSpan::styled(fill, theme.table_border));
        if i + 1 < widths.len() {
            push_span(&mut spans, span_of_char(mid, theme.table_border));
        }
        i = i + 1;
        assert(spans_view(spans@) =~= seq![span(seq![left], theme.table_border)] + border_cells(
            wv,
            i as nat,
            mid,
            '─',
            *theme,
        ));
    }
    push_span(&mut spans, span_of_char(right, theme.table_border));
    assert(spans_view(spans@) =~= border_line(wv, left, mid, right, *theme));
    StyledLine::from_spans(spans)
}

/// The line of one table row (see `row_line`).
fn table_row(row: &Vec<String>, widths: &Vec<usize>, style: Style, theme: &Theme) -> (l: StyledLine)
    ensures
        l@ == row_line(strs_view(row@), widths_view(widths@), style, *theme),
{
    let ghost wv = widths_view(widths@);
    let ghost rv = strs_view(row@);
    let mut spans: Vec<StyledSpan> = Vec::new();
    push_span(&mut spans, span_of_char('│', theme.table_border));
    let mut i: usize = 0;
    while i < widths.len()
        invariant
            i <= widths.len(),
            wv == widths_view(widths@),
            rv == strs_view(row@),
            spans_view(spans@) == seq![span(seq!['│'], theme.table_border)] + row_cells(
                rv,
                wv,
                i as nat,
                style,
                *theme,
            ),
        decreases widths.len() - i,
    {
        let mut text = String::new();
        push_char(&mut text, ' ');
        if i < row.len() {
            push_padded_right(&mut text, row[i].as_str(), widths[i]);
        } else {
            push_padded_right(&mut text, "", widths[i]);
            proof {
                reveal_strlit("");
                assert(""@ =~= Seq::<char>::empty());
            }
        }
        push_char(&mut text, ' ');
        assert(text@ =~= seq![' '] + pad_right(cell_at(rv, i as int), wv[i as int]) + seq![' ']);
        push_span(&mut spans, StyledSpan::styled(text, style));
        push_span(&mut spans, span_of_char('│', theme.table_border));
        i = i + 1;
        assert(spans_view(spans@) =~= seq![span(seq!['│'], theme.table_border)] + row_cells(
            rv,
            wv,
            i as nat,
            style,
            *theme,
        ));
    }
    StyledLine::from_spans(spans)
}

proof fn lemma_column_width_bound(rows: Seq<Seq<Seq<char>>>, i: int)
    ensures
        column_width(rows, i) <= usize::MAX,
    decreases rows.len(),
{
    if rows.len() > 0 {
        lemma_column_width_bound(rows.drop_last(), i);
    }
}

proof fn lemma_column_count_bound(rows: Seq<Seq<Seq<char>>>, j: int)
    requires
        0 <= j < rows.len(),
    ensures
        rows[j].len() <= column_count(rows),
    decreases rows.len(),
{
    if j < rows.len() - 1 {
        lemma_column_count_bound(rows.drop_last(), j);
    }
}

/// The widths of the columns of a table.
fn column_widths_of(rows: &Vec<Vec<String>>) -> (w: Vec<usize>)
    ensures
        widths_view(w@) == column_widths(rows_view(rows@)),
{
    let ghost rv = rows_view(rows@);
    let mut nc: usize = 0;
    let mut j: usize = 0;
    while j < rows.len()
        invariant
            j <= rows.len(),
            rv == rows_view(rows@),
            nc == column_count(rv.take(j as int)),
        decreases rows.len() - j,
    {
        assert(rv.take(j + 1).drop_last() =~= rv.take(j as int));
        if rows[j].len() > nc {
            nc = rows[j].len();
        }
        j = j + 1;
    }
    assert(rv.take(rows.len() as int) =~= rv);
    let mut w: Vec<usize> = Vec::new();
    let mut i: usize = 0;
    while i < nc
        invariant
            i <= nc,
            w@.len() == i,
            forall|k: int| 0 <= k < i ==> w@[k] == 0,
        decreases nc - i,
    {
        w.push(0);
        i = i + 1;
    }
    assert(forall|k: int| 0 <= k < nc ==> w@[k] == column_width(rv.take(0), k));
    let mut j: usize = 0;
    while j < rows.len()
        invariant
            j <= rows.len(),
            rv == rows_view(rows@),
            nc == column_count(rv),
            w@.len() == nc,
            forall|k: int| 0 <= k < nc ==> w@[k] == column_width(#[trigger] rv.take(j as int), k),
        decreases rows.len() - j,
    {
        let row = &rows[j];
        proof {
            lemma_column_count_bound(rv, j as int);
            assert(rv[j as int] == strs_view(row@));
            assert(rv.take(j + 1).drop_last() =~= rv.take(j as int));
            assert(rv.take(j + 1).last() == rv[j as int]);
        }
        let mut k: usize = 0;
        while k < row.len()
            invariant
                k <= row.len(),
                row.len() <= nc,
                w@.len() == nc,
                rv == rows_view(rows@),
                j < rows.len(),
                rv[j as int] == strs_view(row@),
                rv.take(j + 1).drop_last() == rv.take(j as int),
                rv.take(j + 1).last() == rv[j as int],
                forall|m: int| 0 <= m < k ==> w@[m] == column_width(rv.take(j + 1), m),
                forall|m: int| k <= m < nc ==> w@[m] == column_width(rv.take(j as int), m),
            decreases row.len() - k,
        {
            let len = str_byte_len(row[k].as_str());
            if len > w[k] {
                w.set(k, len);
            }
            k = k + 1;
        }
        proof {
            assert forall|m: int| row.len() <= m < nc implies w@[m] == column_width(
                rv.take(j + 1),
                m,
            ) by {}
        }
        j = j + 1;
    }
    assert(rv.take(rows.len() as int) =~= rv);
    assert(widths_view(w@) =~= column_widths(rv));
    w
}

/// Appends the lines of a table (see `table_lines`).
pub fn render_table(rows: &Vec<Vec<String>>, lines: &mut Vec<StyledLine>, theme: &Theme)
    ensures
        lines_view(final(lines)@) == lines_view(old(lines)@) + table_lines(rows_view(rows@), *theme),
{
    let ghost start = lines_view(lines@);
    let ghost rv = rows_view(rows@);
    if rows.len() == 0 {
        assert(lines_view(lines@) =~= start + table_lines(rv, *theme));
        return;
    }
    let widths = column_widths_of(rows);
    let ghost wv = widths_view(widths@);
    push_line(lines, border(&widths, '┌', '┬', '┐', theme));
    let mut j: usize = 0;
    while j < rows.len()
        invariant
            j <= rows.len(),
            rows.len() > 0,
            rv == rows_view(rows@),
            wv == widths_view(widths@),
            wv == column_widths(rv),
            lines_view(lines@) == start + seq![border_line(wv, '┌', '┬', '┐', *theme)] + table_body(
                rv,
                wv,
                j as nat,
                *theme,
            ),
        decreases rows.len() - j,
    {
        let style = if j == 0 {
            theme.table_header
        } else {
            theme.table_cell
        };
        push_line(lines, table_row(&rows[j], &widths, style, theme));
        if j == 0 {
            push_line(lines, border(&widths, '├', '┼', '┤', theme));
        }
        j = j + 1;
        assert(lines_view(lines@) =~= start + seq![border_line(wv, '┌', '┬', '┐', *theme)]
            + table_body(rv, wv, j as nat, *theme));
    }
    push_line(lines, border(&widths, '└', '┴', '┘', theme));
    push_line(lines, StyledLine::empty());
    assert(lines_view(lines@) =~= start + table_lines(rv, *theme));
}

// ---------------------------------------------------------------------------
// The renderer

/// The renderer's state (see `RenderState`).
struct Machine {
    lines: Vec<StyledLine>,
    headings: Vec<Heading>,
    spans: Vec<StyledSpan>,
    styles: Vec<Style>,
    in_table: bool,
    rows: Vec<Vec<String>>,
    row: Vec<String>,
    cell: String,
    in_code: bool,
    code_lines: Vec<String>,
    lang: String,
    depth: usize,
    quotes: usize,
    link: String,
}

impl View for Machine {
    type V = RenderState;

    closed spec fn view(&self) -> RenderState {
        RenderState {
            lines: lines_view(self.lines@),
            headings: headings_view(self.headings@),
            spans: spans_view(self.spans@),
            styles: self.styles@,
            in_table: self.in_table,
            rows: rows_view(self.rows@),
            row: strs_view(self.row@),
            cell: self.cell@,
            in_code: self.in_code,
            code_lines: strs_view(self.code_lines@),
            lang: self.lang@,
            depth: self.depth as nat,
            quotes: self.quotes as nat,
            link: self.link@,
        }
    }
}

fn heading_style_of(level: u8, theme: &Theme) -> (s: Style)
    ensures
        s == heading_style(level, *theme),
{
    if level == 1 {
        theme.h1
    } else if level == 2 {
        theme.h2
    } else if level == 3 {
        theme.h3
    } else {
        theme.h_other
    }
}

/// The text of a sequence of spans, their contents joined.
fn spans_text(spans: &Vec<StyledSpan>) -> (t: String)
    ensures
        t@ == line_text(spans_view(spans@)),
{
    let mut t = String::new();
    let mut i: usize = 0;
    while i < spans.len()
        invariant
            i <= spans.len(),
            t@ == line_text(spans_view(spans@).take(i as int)),
        decreases spans.len() - i,
    {
        push_str(&mut t, spans[i].content.as_str());
        i = i + 1;
        proof {
            assert(spans_view(spans@).take(i as int).drop_last() =~= spans_view(spans@).take(i - 1));
        }
    }
    proof {
        assert(spans_view(spans@).take(spans.len() as int) =~= spans_view(spans@));
    }
    t
}

fn string_copy(s: &String) -> (r: String)
    ensures
        r@ == s@,
{
    s.clone()
}

impl Machine {
    fn new() -> (m: Machine)
        ensures
            m@ == initial_state(),
    {
        let mut styles = Vec::new();
        styles.push(Style::new());
        let m = Machine {
            lines: Vec::new(),
            headings: Vec::new(),
            spans: Vec::new(),
            styles,
            in_table: false,
            rows: Vec::new(),
            row: Vec::new(),
            cell: String::new(),
            in_code: false,
            code_lines: Vec::new(),
            lang: String::new(),
            depth: 0,
            quotes: 0,
            link: String::new(),
        };
        assert(m@.lines =~= Seq::<Seq<SpanView>>::empty());
        assert(m@.headings =~= Seq::<HeadingView>::empty());
        assert(m@.spans =~= Seq::<SpanView>::empty());
        assert(m@.rows =~= Seq::<Seq<Seq<char>>>::empty());
        assert(m@.row =~= Seq::<Seq<char>>::empty());
        assert(m@.code_lines =~= Seq::<Seq<char>>::empty());
        assert(m@.styles =~= seq![plain_style()]);
        m
    }

    /// Moves the spans of the line being built out, leaving none.
    fn take_spans(&mut self) -> (l: StyledLine)
        ensures
            l@ == old(self)@.spans,
            final(self)@ == (RenderState { spans: Seq::empty(), ..old(self)@ }),
    {
        let mut spans = Vec::new();
        std::mem::swap(&mut spans, &mut self.spans);
        assert(self@.spans =~= Seq::<SpanView>::empty());
        StyledLine::from_spans(spans)
    }

    /// Ends the line being built: it goes to the lines, with the quote's
    /// indicator in front inside a block quote (see `quoted`).
    fn end_line(&mut self, theme: &Theme)
        ensures
            final(self)@ == (RenderState {
                lines: old(self)@.lines.push(quoted(old(self)@.spans, old(self)@.quotes, *theme)),
                spans: Seq::empty(),
                ..old(self)@
            }),
    {
        let l = self.take_spans();
        if self.quotes > 0 && l.spans.len() > 0 {
            let mut bar = String::new();
            push_char(&mut bar, '│');
            push_char(&mut bar, ' ');
            assert(bar@ =~= seq!['│', ' ']);
            let mut spans: Vec<StyledSpan> = Vec::new();
            push_span(&mut spans, StyledSpan::styled(bar, theme.blockquote));
            let ghost sv = spans_view(spans@);
            let mut rest = l.spans;
            append_spans(&mut spans, &mut rest);
            proof {
                assert(sv =~= seq![span(seq!['│', ' '], theme.blockquote)]);
            }
            push_line(&mut self.lines, StyledLine::from_spans(spans));
        } else {
            push_line(&mut self.lines, l);
        }
    }

    fn start(&mut self, tag: MdTag, arg: &String, theme: &Theme)
        requires
            old(self)@.styles.len() > 0,
            old(self).depth < usize::MAX,
            old(self).quotes < usize::MAX,
        ensures
            final(self)@ == start_step(old(self)@, tag, arg@, *theme),
    {
        let top = self.styles[self.styles.len() - 1];
        let style = match tag {
            MdTag::Heading(level) => heading_style_of(level, theme),
            MdTag::Emphasis => theme.emphasis,
            MdTag::Strong => theme.strong,
            MdTag::BlockQuote => theme.blockquote,
            MdTag::Link => theme.link,
            _ => top,
        };
        match tag {
            MdTag::CodeBlock => {
                self.in_code = true;
                self.code_lines = Vec::new();
                self.lang = string_copy(arg);
                assert(self@.code_lines =~= Seq::<Seq<char>>::empty());
            },
            MdTag::Link => {
                self.link = string_copy(arg);
            },
            MdTag::List => {
                self.depth = self.depth + 1;
            },
            MdTag::Item => {
                let mut bullet = String::new();
                push_repeat(&mut bullet, "  ", self.depth);
                push_str(&mut bullet, "• ");
                proof {
                    reveal_strlit("  ");
                    reveal_strlit("• ");
                    assert("  "@ =~= seq![' ', ' ']);
                    assert("• "@ =~= seq!['•', ' ']);
                    assert(bullet@ =~= repeat(seq![' ', ' '], old(self).depth as nat) + seq!['•', ' ']);
                }
                if self.spans.len() > 0 {
                    self.end_line(theme);
                }
                let mut spans: Vec<StyledSpan> = Vec::new();
                push_span(&mut spans, StyledSpan::styled(bullet, theme.list_bullet));
                self.spans = spans;
                proof {
                    assert(self@.spans =~= seq![span(bullet@, theme.list_bullet)]);
                }
            },
            MdTag::BlockQuote => {
                self.quotes = self.quotes + 1;
            },
            MdTag::Table => {
                self.in_table = true;
                self.rows = Vec::new();
                assert(self@.rows =~= Seq::<Seq<Seq<char>>>::empty());
            },
            MdTag::TableHead | MdTag::TableRow => {
                self.row = Vec::new();
                assert(self@.row =~= Seq::<Seq<char>>::empty());
            },
            MdTag::TableCell => {
                self.cell = String::new();
            },
            _ => {},
        }
        self.styles.push(style);
    }

    fn end(&mut self, tag: MdTag, theme: &Theme)
        ensures
            final(self)@ == end_step(old(self)@, tag, *theme),
    {
        self.styles.pop();
        match tag {
            MdTag::Heading(level) => {
                let text = spans_text(&self.spans);
                self.spans = Vec::new();
                let text_len = str_byte_len(text.as_str());
                let line_index = self.lines.len();
                let style = heading_style_of(level, theme);
                let ghost start = lines_view(self.lines@);
                proof {
                    reveal_strlit("═");
                    reveal_strlit("─");
                    assert("═"@ =~= seq!['═']);
                    assert("─"@ =~= seq!['─']);
                }
                if level == 1 {
                    let upper = to_uppercase(text.as_str());
                    let mut rule = String::new();
                    push_repeat(&mut rule, "═", text_len);
                    push_line(&mut self.lines, StyledLine::from_span(StyledSpan::styled(upper, style)));
                    push_line(
                        &mut self.lines,
                        StyledLine::from_span(StyledSpan::styled(rule, theme.border)),
                    );
                } else if level == 2 {
                    let mut rule = String::new();
                    push_repeat(&mut rule, "─", text_len);
                    push_line(
                        &mut self.lines,
                        StyledLine::from_span(StyledSpan::styled(string_copy(&text), style)),
                    );
                    push_line(
                        &mut self.lines,
                        StyledLine::from_span(StyledSpan::styled(rule, theme.border)),
                    );
                } else {
                    push_line(
                        &mut self.lines,
                        StyledLine::from_span(StyledSpan::styled(string_copy(&text), style)),
                    );
                }
                push_line(&mut self.lines, StyledLine::empty());
                let ghost hv = self@.headings;
                self.headings.push(Heading { text, level, line_index });
                proof {
                    assert(lines_view(self.lines@) =~= start + heading_lines(
                        line_text(old(self)@.spans),
                        level,
                        *theme,
                    ));
                    assert(self@.headings =~= hv.push(
                        HeadingView {
                            text: line_text(old(self)@.spans),
                            level,
                            line_index: start.len() as usize,
                        },
                    ));
                    assert(self@.spans =~= Seq::<SpanView>::empty());
                }
            },
            MdTag::Paragraph => {
                self.end_line(theme);
                push_line(&mut self.lines, StyledLine::empty());
            },
            MdTag::BlockQuote => {
                self.end_line(theme);
                push_line(&mut self.lines, StyledLine::empty());
                if self.quotes > 0 {
                    self.quotes = self.quotes - 1;
                }
            },
            MdTag::Item => {
                self.end_line(theme);
            },
            MdTag::List => {
                if self.depth > 0 {
                    self.depth = self.depth - 1;
                }
                if self.depth == 0 {
                    push_line(&mut self.lines, StyledLine::empty());
                }
            },
            MdTag::CodeBlock => {
                self.in_code = false;
                render_code_block(self.lang.as_str(), &self.code_lines, &mut self.lines, theme);
                self.code_lines = Vec::new();
                assert(self@.code_lines =~= Seq::<Seq<char>>::empty());
            },
            MdTag::TableCell => {
                let mut cell = String::new();
                std::mem::swap(&mut cell, &mut self.cell);
                push_string(&mut self.row, cell);
            },
            MdTag::TableHead | MdTag::TableRow => {
                let mut row = Vec::new();
                std::mem::swap(&mut row, &mut self.row);
                let ghost rv = self@.rows;
                self.rows.push(row);
                assert(self@.rows =~= rv.push(strs_view(row@)));
                assert(self@.row =~= Seq::<Seq<char>>::empty());
            },
            MdTag::Table => {
                self.in_table = false;
                render_table(&self.rows, &mut self.lines, theme);
                self.rows = Vec::new();
                assert(self@.rows =~= Seq::<Seq<Seq<char>>>::empty());
            },
            MdTag::Link => {
                if self.link.as_str().unicode_len() > 0 {
                    let mut s = String::new();
                    push_str(&mut s, " (");
                    push_str(&mut s, self.link.as_str());
                    push_char(&mut s, ')');
                    proof {
                        reveal_strlit(" (");
                        assert(" ("@ =~= seq![' ', '(']);
                        assert(s@ =~= seq![' ', '('] + old(self)@.link + seq![')']);
                    }
                    push_span(&mut self.spans, StyledSpan::styled(s, theme.link));
                    self.link = String::new();
                }
            },
            _ => {},
        }
    }

    fn text(&mut self, t: &String, theme: &Theme)
        requires
            !old(self)@.in_code && !old(self)@.in_table ==> old(self)@.styles.len() > 0,
        ensures
            final(self)@ == text_step(old(self)@, t@, *theme),
    {
        if self.in_code {
            let mut pieces = split_newlines(t.as_str());
            let ghost cv = self@.code_lines;
            self.code_lines.append(&mut pieces);
            assert(self@.code_lines =~= cv + split_nl(t@));
        } else if self.in_table {
            push_str(&mut self.cell, t.as_str());
        } else {
            let style = self.styles[self.styles.len() - 1];
            let pieces = lines_of(t.as_str());
            let ghost pv = strs_view(pieces@);
            let ghost l0 = self@.lines;
            let ghost s0 = self@.spans;
            let ghost st0 = self@;
            let mut i: usize = 0;
            while i < pieces.len()
                invariant
                    i <= pieces.len(),
                    pv == strs_view(pieces@),
                    pv == text_lines(t@),
                    (self@.lines, self@.spans) == text_into(
                        l0,
                        s0,
                        pv.take(i as int),
                        style,
                        st0.quotes,
                        *theme,
                    ),
                    self@ == (RenderState { lines: self@.lines, spans: self@.spans, ..st0 }),
                decreases pieces.len() - i,
            {
                assert(pv.take(i + 1).drop_last() =~= pv.take(i as int));
                if i > 0 {
                    self.end_line(theme);
                }
                let ghost sp = self@.spans;
                push_span(&mut self.spans, StyledSpan::styled(string_copy(&pieces[i]), style));
                proof {
                    if i > 0 {
                        assert(self@.spans =~= seq![span(pv[i as int], style)]);
                    }
                }
                i = i + 1;
            }
            assert(pv.take(pieces.len() as int) =~= pv);
        }
    }

    fn code(&mut self, c: &String, theme: &Theme)
        ensures
            final(self)@ == step(old(self)@, EventView::Code(c@), *theme, 0),
    {
        if self.in_table {
            push_char(&mut self.cell, '`');
            push_str(&mut self.cell, c.as_str());
            push_char(&mut self.cell, '`');
            assert(self@.cell =~= old(self)@.cell + seq!['`'] + c@ + seq!['`']);
        } else {
            let mut s = String::new();
            push_char(&mut s, ' ');
            push_str(&mut s, c.as_str());
            push_char(&mut s, ' ');
            assert(s@ =~= seq![' '] + c@ + seq![' ']);
            push_span(&mut self.spans, StyledSpan::styled(s, theme.inline_code));
        }
    }

    fn line_break(&mut self, theme: &Theme)
        ensures
            final(self)@ == (RenderState {
                lines: old(self)@.lines.push(quoted(old(self)@.spans, old(self)@.quotes, *theme)),
                spans: Seq::empty(),
                ..old(self)@
            }),
    {
        self.end_line(theme);
    }

    fn rule(&mut self, width: u16, theme: &Theme)
        ensures
            final(self)@ == step(old(self)@, EventView::Rule, *theme, width),
    {
        if self.spans.len() > 0 {
            self.end_line(theme);
        }
        let mut r = String::new();
        push_repeat(&mut r, "─", width as usize);
        proof {
            reveal_strlit("─");
            assert("─"@ =~= seq!['─']);
        }
        push_line(&mut self.lines, StyledLine::from_span(StyledSpan::styled(r, theme.rule)));
        push_line(&mut self.lines, StyledLine::empty());
        assert(self@.spans =~= Seq::<SpanView>::empty());
    }

    fn finish(self, theme: &Theme) -> (r: (Vec<StyledLine>, Vec<Heading>))
        ensures
            lines_view(r.0@) == (if self@.spans.len() > 0 {
                self@.lines.push(quoted(self@.spans, self@.quotes, *theme))
            } else {
                self@.lines
            }),
            headings_view(r.1@) == self@.headings,
    {
        let mut m = self;
        if m.spans.len() > 0 {
            m.end_line(theme);
        }
        (m.lines, m.headings)
    }
}

/// Renders markdown events into styled lines and the list of headings;
/// `width` is the width of the screen, which a horizontal rule spans.
/// The events must not end an element that they have not started.
pub fn render_events(events: &Vec<MdEvent>, theme: &Theme, width: u16) -> (r: (
    Vec<StyledLine>,
    Vec<Heading>,
))
    requires
        starts_cover_ends(events_view(events@)),
    ensures
        (lines_view(r.0@), headings_view(r.1@)) == render(events_view(events@), *theme, width),
{
    let ghost ev = events_view(events@);
    let mut m = Machine::new();
    let mut i: usize = 0;
    assert(ev.take(0) =~= Seq::<EventView>::empty());
    while i < events.len()
        invariant
            i <= events.len(),
            ev == events_view(events@),
            starts_cover_ends(ev),
            m@ == run(ev.take(i as int), *theme, width),
            m@.styles.len() == 1 + open_count(ev.take(i as int)),
            m@.depth <= i,
            m@.quotes <= i,
        decreases events.len() - i,
    {
        proof {
            assert(ev.take(i + 1).drop_last() =~= ev.take(i as int));
            assert(ev.take(i + 1).last() == ev[i as int]);
            assert(open_count(ev.take(i + 1)) >= 0);
        }
        match &events[i] {
            MdEvent::Start(tag, arg) => m.start(*tag, arg, theme),
            MdEvent::End(tag) => m.end(*tag, theme),
            MdEvent::Text(t) => m.text(t, theme),
            MdEvent::Code(c) => m.code(c, theme),
            MdEvent::SoftBreak => m.line_break(theme),
            MdEvent::HardBreak => m.line_break(theme),
            MdEvent::Rule => m.rule(width, theme),
            MdEvent::Other => {},
        }
        i = i + 1;
    }
    assert(ev.take(events.len() as int) =~= ev);
    m.finish(theme)
}

} // verus!
