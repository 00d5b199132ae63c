//! Styled text: spans and lines, what the reader draws on the screen.
use vstd::prelude::*;
use crate::style::Style;

verus! {

/// A run of text drawn in one style.
#[derive(Clone, Debug)]
pub struct StyledSpan {
    pub content: String,
    pub style: Style,
}

/// What a span holds: its characters and its style.
pub struct SpanView {
    pub content: Seq<char>,
    pub style: Style,
}

impl View for StyledSpan {
    type V = SpanView;

    open spec fn view(&self) -> SpanView {
        SpanView { content: self.content@, style: self.style }
    }
}

/// The span with the given text and style.
pub open spec fn span(content: Seq<char>, style: Style) -> SpanView {
    SpanView { content, style }
}

impl StyledSpan {
    /// A span of `content` in `style`.
    pub fn styled(content: String, style: Style) -> (s: StyledSpan)
        ensures
            s@ == span(content@, style),
    {
        StyledSpan { content, style }
    }
}

/// One line on the screen: a sequence of spans.
#[derive(Clone, Debug)]
pub struct StyledLine {
    pub spans: Vec<StyledSpan>,
}

/// The view of a sequence of spans.
pub open spec fn spans_view(spans: Seq<StyledSpan>) -> Seq<SpanView> {
    spans.map_values(|s: StyledSpan| s@)
}

impl View for StyledLine {
    type V = Seq<SpanView>;

    open spec fn view(&self) -> Seq<SpanView> {
        spans_view(self.spans@)
    }
}

/// The view of a sequence of lines.
pub open spec fn lines_view(lines: Seq<StyledLine>) -> Seq<Seq<SpanView>> {
    lines.map_values(|l: StyledLine| l@)
}

/// The characters of a line, its spans' contents joined.
pub open spec fn line_text(line: Seq<SpanView>) -> Seq<char>
    decreases line.len(),
{
    if line.len() == 0 {
        Seq::empty()
    } else {
        line_text(line.drop_last()) + line.last().content
    }
}

impl StyledLine {
    /// The line with no spans.
    pub fn empty() -> (l: StyledLine)
        ensures
            l@ == Seq::<SpanView>::empty(),
    {
        StyledLine { spans: Vec::new() }
    }

    /// The line made of the given spans.
    pub fn from_spans(spans: Vec<StyledSpan>) -> (l: StyledLine)
        ensures
            l@ == spans_view(spans@),
    {
        StyledLine { spans }
    }

    /// The line made of one span.
    pub fn from_span(s: StyledSpan) -> (l: StyledLine)
        ensures
            l@ == seq![s@],
    {
        let mut spans = Vec::new();
        spans.push(s);
        proof {
            assert(spans_view(spans@) =~= seq![s@]);
        }
        StyledLine { spans }
    }

    /// The text of the line, its spans' contents joined.
    pub fn text(&self) -> (t: String)
        ensures
            t@ == line_text(self@),
    {
        let mut t = String::new();
        let mut i: usize = 0;
        while i < self.spans.len()
            invariant
                i <= self.spans.len(),
                t@ == line_text(self@.take(i as int)),
            decreases self.spans.len() - i,
        {
            crate::text::push_str(&mut t, self.spans[i].content.as_str());
            i = i + 1;
            proof {
                assert(self@.take(i as int).drop_last() =~= self@.take(i - 1));
            }
        }
        proof {
            assert(self@.take(self.spans.len() as int) =~= self@);
        }
        t
    }
}

/// Appends a span to a vector of spans.
pub fn push_span(spans: &mut Vec<StyledSpan>, s: StyledSpan)
    ensures
        spans_view(final(spans)@) == spans_view(old(spans)@).push(s@),
{
    spans.push(s);
    proof {
        assert(spans_view(spans@) =~= spans_view(old(spans)@).push(s@));
    }
}

/// Moves all the spans of `more` to the end of `spans`.
pub fn append_spans(spans: &mut Vec<StyledSpan>, more: &mut Vec<StyledSpan>)
    ensures
        spans_view(final(spans)@) == spans_view(old(spans)@) + spans_view(old(more)@),
        final(more)@.len() == 0,
{
    let ghost before = spans_view(spans@);
    let ghost added = spans_view(more@);
    spans.append(more);
    proof {
        assert(spans_view(spans@) =~= before + added);
    }
}

/// Appends a line to a vector of lines.
pub fn push_line(lines: &mut Vec<StyledLine>, l: StyledLine)
    ensures
        lines_view(final(lines)@) == lines_view(old(lines)@).push(l@),
{
    lines.push(l);
    proof {
        assert(lines_view(lines@) =~= lines_view(old(lines)@).push(l@));
    }
}

} // verus!
