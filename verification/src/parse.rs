//! Parsing of markdown text with `pulldown_cmark`, and its rendering.
use vstd::prelude::*;
use pulldown_cmark::{CodeBlockKind, DefaultBrokenLinkCallback, Event, Options, Parser, Tag};
use crate::line::{lines_view, StyledLine};
use crate::markdown::{
    balanced, events_view, heading_levels_in_range, heading_levels_valid, headings_view,
    lemma_heading_levels, render, EventView, Heading, MdEvent, MdTag,
};
use crate::render::render_events;
use crate::style::Theme;
use crate::text::{chars_of, str_eq};

verus! {

#[verifier::external_type_specification]
#[verifier::external_body]
pub struct ExDefaultBrokenLinkCallback(DefaultBrokenLinkCallback);

#[verifier::external_type_specification]
#[verifier::external_body]
#[verifier::reject_recursive_types(F)]
pub struct ExParser<'input, F>(Parser<'input, F>);

/// An event as the parser hands it out, its tag given by the name of the
/// element's `TagEnd` as `Debug` writes it (`"Paragraph"`, `"Heading(H2)"`,
/// `"List(false)"`, ...). `Start` also carries the fence language of a code
/// block or the destination of a link, and is empty otherwise.
pub enum ParsedEvent {
    Start(String, String),
    End(String),
    Text(String),
    Code(String),
    SoftBreak,
    HardBreak,
    Rule,
    Other,
}

/// What a parsed event holds, with its strings as character sequences.
pub enum ParsedView {
    Start(Seq<char>, Seq<char>),
    End(Seq<char>),
    Text(Seq<char>),
    Code(Seq<char>),
    SoftBreak,
    HardBreak,
    Rule,
    Other,
}

impl View for ParsedEvent {
    type V = ParsedView;

    open spec fn view(&self) -> ParsedView {
        match self {
            ParsedEvent::Start(t, s) => ParsedView::Start(t@, s@),
            ParsedEvent::End(t) => ParsedView::End(t@),
            ParsedEvent::Text(s) => ParsedView::Text(s@),
            ParsedEvent::Code(s) => ParsedView::Code(s@),
            ParsedEvent::SoftBreak => ParsedView::SoftBreak,
            ParsedEvent::HardBreak => ParsedView::HardBreak,
            ParsedEvent::Rule => ParsedView::Rule,
            ParsedEvent::Other => ParsedView::Other,
        }
    }
}

/// `p` is the beginning of `s`.
pub open spec fn starts_with(s: Seq<char>, p: Seq<char>) -> bool {
    p.len() <= s.len() && s.take(p.len() as int) == p
}

/// The renderer's tag for the `Debug` name of a `TagEnd`: the level of a
/// heading `"Heading(H1)"` to `"Heading(H6)"`, the block quote and the list
/// whatever their kind, the other elements that the renderer tells apart by
/// their names, and `Other` for every other name.
pub open spec fn tag_from_name(n: Seq<char>) -> MdTag {
    if starts_with(n, "Heading(H"@) && n.len() == "Heading(H"@.len() + 2 && n[n.len() - 1] == ')'
        && 49 <= (n[n.len() - 2] as u32) <= 54 {
        MdTag::Heading(((n[n.len() - 2] as u32) - 48) as u8)
    } else if n == "Paragraph"@ {
        MdTag::Paragraph
    } else if starts_with(n, "BlockQuote("@) {
        MdTag::BlockQuote
    } else if n == "CodeBlock"@ {
        MdTag::CodeBlock
    } else if starts_with(n, "List("@) {
        MdTag::List
    } else if n == "Item"@ {
        MdTag::Item
    } else if n == "Table"@ {
        MdTag::Table
    } else if n == "TableHead"@ {
        MdTag::TableHead
    } else if n == "TableRow"@ {
        MdTag::TableRow
    } else if n == "TableCell"@ {
        MdTag::TableCell
    } else if n == "Emphasis"@ {
        MdTag::Emphasis
    } else if n == "Strong"@ {
        MdTag::Strong
    } else if n == "Link"@ {
        MdTag::Link
    } else {
        MdTag::Other
    }
}

/// The event that the renderer sees for a parsed event.
pub open spec fn cooked(e: ParsedView) -> EventView {
    match e {
        ParsedView::Start(t, a) => EventView::Start(tag_from_name(t), a),
        ParsedView::End(t) => EventView::End(tag_from_name(t)),
        ParsedView::Text(s) => EventView::Text(s),
        ParsedView::Code(s) => EventView::Code(s),
        ParsedView::SoftBreak => EventView::SoftBreak,
        ParsedView::HardBreak => EventView::HardBreak,
        ParsedView::Rule => EventView::Rule,
        ParsedView::Other => EventView::Other,
    }
}

/// The events that `pulldown_cmark` reports for the markdown text `content`
/// with all its extensions on (`Options::all()`), each as the renderer sees
/// it (`cooked`): a start or end event with the tag read from the `Debug`
/// name of the element's `TagEnd` (`to_end()` of a start's `Tag`), a start
/// carrying the language of a fenced code block or the destination of a
/// link, text and inline code carrying their text; soft and hard breaks and
/// rules as such; every other event `Other`.
pub uninterp spec fn markdown_events(content: Seq<char>) -> Seq<EventView>;

/// The events that a parser has yet to hand out.
pub uninterp spec fn parser_events(p: Parser) -> Seq<EventView>;

/// `Parser::new_ext(content, Options::all())`: a parser of `content` that
/// will hand out the events of `content`. As pulldown_cmark documents, start
/// and end events are balanced.
#[verifier::external_body]
fn new_parser(content: &str) -> (p: Parser<'_>)
    ensures
        parser_events(p) == markdown_events(content@),
        balanced(parser_events(p)),
{
    Parser::new_ext(content, Options::all())
}

/// `Iterator::next` of `Parser`: the next event (the tag of a start or an
/// end as the `Debug` name of its `TagEnd`), or `None` when the parser is
/// done.
#[verifier::external_body]
fn next_event(p: &mut Parser<'_>) -> (r: Option<ParsedEvent>)
    ensures
        parser_events(*old(p)).len() == 0 ==> r is None && parser_events(*final(p))
            == parser_events(*old(p)),
        parser_events(*old(p)).len() > 0 ==> r is Some && cooked(r->0@) == parser_events(
            *old(p),
        )[0] && parser_events(*final(p)) == parser_events(*old(p)).drop_first(),
{
    Some(match p.next()? {
        Event::Start(t) => {
            let arg = match &t { Tag::CodeBlock(CodeBlockKind::Fenced(s)) => s.to_string(), Tag::Link { dest_url, .. } => dest_url.to_string(), _ => String::new() };
            ParsedEvent::Start(format!("{:?}", t.to_end()), arg)
        },
        Event::End(t) => ParsedEvent::End(format!("{:?}", t)),
        Event::Text(s) => ParsedEvent::Text(s.to_string()),
        Event::Code(s) => ParsedEvent::Code(s.to_string()),
        Event::SoftBreak => ParsedEvent::SoftBreak,
        Event::HardBreak => ParsedEvent::HardBreak,
        Event::Rule => ParsedEvent::Rule,
        _ => ParsedEvent::Other,
    })
}

/// Whether `s` begins with `p`.
fn has_prefix(s: &Vec<char>, p: &str) -> (r: bool)
    ensures
        r == starts_with(s@, p@),
{
    let pc = chars_of(p);
    if pc.len() > s.len() {
        return false;
    }
    let mut i: usize = 0;
    while i < pc.len()
        invariant
            i <= pc.len() <= s.len(),
            pc@ == p@,
            forall|j: int| 0 <= j < i ==> s@[j] == pc@[j],
        decreases pc.len() - i,
    {
        if s[i] != pc[i] {
            assert(s@.take(pc.len() as int)[i as int] != p@[i as int]);
            return false;
        }
        i = i + 1;
    }
    assert(s@.take(pc.len() as int) =~= p@);
    true
}

/// The renderer's tag for the `Debug` name of a `TagEnd` (see
/// `tag_from_name`).
fn tag_named(name: &str) -> (t: MdTag)
    ensures
        t == tag_from_name(name@),
{
    let n = chars_of(name);
    let k = n.len();
    let h = has_prefix(&n, "Heading(H");
    let hl = chars_of("Heading(H").len();
    if h && hl <= k && k - hl == 2 && n[k - 1] == ')' && 49 <= (n[k - 2] as u32) && (n[k - 2] as u32) <= 54 {
        return MdTag::Heading(((n[k - 2] as u32) - 48) as u8);
    }
    if str_eq(name, "Paragraph") {
        MdTag::Paragraph
    } else if has_prefix(&n, "BlockQuote(") {
        MdTag::BlockQuote
    } else if str_eq(name, "CodeBlock") {
        MdTag::CodeBlock
    } else if has_prefix(&n, "List(") {
        MdTag::List
    } else if str_eq(name, "Item") {
        MdTag::Item
    } else if str_eq(name, "Table") {
        MdTag::Table
    } else if str_eq(name, "TableHead") {
        MdTag::TableHead
    } else if str_eq(name, "TableRow") {
        MdTag::TableRow
    } else if str_eq(name, "TableCell") {
        MdTag::TableCell
    } else if str_eq(name, "Emphasis") {
        MdTag::Emphasis
    } else if str_eq(name, "Strong") {
        MdTag::Strong
    } else if str_eq(name, "Link") {
        MdTag::Link
    } else {
        MdTag::Other
    }
}

/// The event that the renderer sees for a parsed event (see `cooked`).
fn cook(e: ParsedEvent) -> (r: MdEvent)
    ensures
        r@ == cooked(e@),
{
    match e {
        ParsedEvent::Start(t, a) => MdEvent::Start(tag_named(t.as_str()), a),
        ParsedEvent::End(t) => MdEvent::End(tag_named(t.as_str())),
        ParsedEvent::Text(s) => MdEvent::Text(s),
        ParsedEvent::Code(s) => MdEvent::Code(s),
        ParsedEvent::SoftBreak => MdEvent::SoftBreak,
        ParsedEvent::HardBreak => MdEvent::HardBreak,
        ParsedEvent::Rule => MdEvent::Rule,
        ParsedEvent::Other => MdEvent::Other,
    }
}

/// A cooked event's heading tag has a level from 1 to 6.
proof fn lemma_cooked_level(e: ParsedView)
    ensures
        match cooked(e) {
            EventView::Start(MdTag::Heading(l), _) => 1 <= l <= 6,
            EventView::End(MdTag::Heading(l)) => 1 <= l <= 6,
            _ => true,
        },
{
}

/// The events of the markdown text `content` (see `markdown_events`), in
/// one pass of the parser.
pub fn markdown_event_list(content: &str) -> (events: Vec<MdEvent>)
    ensures
        events_view(events@) == markdown_events(content@),
        balanced(events_view(events@)),
        heading_levels_valid(events_view(events@)),
{
    let ghost all = markdown_events(content@);
    let mut p = new_parser(content);
    let mut events: Vec<MdEvent> = Vec::new();
    loop
        invariant
            parser_events(p) == all.skip(events@.len() as int),
            events@.len() <= all.len(),
            events_view(events@) == all.take(events@.len() as int),
            heading_levels_valid(events_view(events@)),
        ensures
            events_view(events@) == all,
            heading_levels_valid(events_view(events@)),
        decreases parser_events(p).len(),
    {
        let ghost before = parser_events(p);
        match next_event(&mut p) {
            None => {
                assert(all.take(events@.len() as int) =~= all);
                break;
            },
            Some(e) => {
                let ghost pe = e@;
                let ev = cook(e);
                proof {
                    assert(before[0] == all[events@.len() as int]);
                    lemma_cooked_level(pe);
                }
                let ghost n: int = events@.len() as int;
                let ghost old_view = events_view(events@);
                events.push(ev);
                proof {
                    assert(events_view(events@) =~= old_view.push(ev@));
                    assert(events_view(events@) =~= all.take(n + 1));
                    assert(all.skip(n).drop_first() =~= all.skip(n + 1));
                    assert forall|i: int| 0 <= i < events_view(events@).len() implies match #[trigger] events_view(
                        events@,
                    )[i] {
                        EventView::Start(MdTag::Heading(l), _) => 1 <= l <= 6,
                        EventView::End(MdTag::Heading(l)) => 1 <= l <= 6,
                        _ => true,
                    } by {
                        if i < n {
                            assert(events_view(events@)[i] == old_view[i]);
                        }
                    }
                }
            },
        }
    }
    proof {
        assert(balanced(all));
    }
    events
}

/// Renders markdown text: the styled lines that show it on a screen `width`
/// columns wide, and its headings, each with the index of the line that
/// shows it and a level from 1 to 6.
pub fn parse(content: &str, theme: &Theme, width: u16) -> (r: (Vec<StyledLine>, Vec<Heading>))
    ensures
        (lines_view(r.0@), headings_view(r.1@)) == render(markdown_events(content@), *theme, width),
        heading_levels_in_range(headings_view(r.1@)),
{
    let events = markdown_event_list(content);
    proof {
        lemma_heading_levels(events_view(events@), *theme, width);
    }
    render_events(&events, theme, width)
}

} // verus!
