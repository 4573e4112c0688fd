//! The events of a parsed Markdown text.

use vstd::prelude::*;

use pulldown_cmark::{Alignment, Event, Options, Parser, Tag, TagEnd};

use crate::table::Align;

verus! {

/// What an element that opens is.
pub enum MdTag {
    Heading,
    CodeBlock,
    BlockQuote,
    /// A list, with the first number of an ordered one.
    List(Option<u64>),
    Item,
    Table(Vec<Align>),
    TableHead,
    TableRow,
    TableCell,
    /// A link to the given address.
    Link(String),
    Other,
}

/// What an element that closes is.
#[derive(Clone, Copy, Debug, PartialEq, Eq, Structural)]
pub enum MdTagEnd {
    Paragraph,
    Heading,
    CodeBlock,
    BlockQuote,
    Item,
    List,
    Link,
    Table,
    TableHead,
    TableRow,
    TableCell,
    Other,
}

/// One event of a parsed text.
pub enum MdEvent {
    Start(MdTag),
    End(MdTagEnd),
    Text(String),
    Code(String),
    Html(String),
    InlineHtml(String),
    FootnoteReference(String),
    SoftBreak,
    HardBreak,
    Rule,
    TaskListMarker(bool),
    Other,
}

/// What an [`MdTag`] holds.
pub enum TagView {
    Heading,
    CodeBlock,
    BlockQuote,
    List(Option<u64>),
    Item,
    Table(Seq<Align>),
    TableHead,
    TableRow,
    TableCell,
    Link(Seq<char>),
    Other,
}

/// What an [`MdEvent`] holds.
pub enum EventView {
    Start(TagView),
    End(MdTagEnd),
    Text(Seq<char>),
    Code(Seq<char>),
    Html(Seq<char>),
    InlineHtml(Seq<char>),
    FootnoteReference(Seq<char>),
    SoftBreak,
    HardBreak,
    Rule,
    TaskListMarker(bool),
    Other,
}

impl View for MdTag {
    type V = TagView;

    open spec fn view(&self) -> TagView {
        match *self {
            MdTag::Heading => TagView::Heading,
            MdTag::CodeBlock => TagView::CodeBlock,
            MdTag::BlockQuote => TagView::BlockQuote,
            MdTag::List(first) => TagView::List(first),
            MdTag::Item => TagView::Item,
            MdTag::Table(a) => TagView::Table(a@),
            MdTag::TableHead => TagView::TableHead,
            MdTag::TableRow => TagView::TableRow,
            MdTag::TableCell => TagView::TableCell,
            MdTag::Link(url) => TagView::Link(url@),
            MdTag::Other => TagView::Other,
        }
    }
}

impl View for MdEvent {
    type V = EventView;

    open spec fn view(&self) -> EventView {
        match *self {
            MdEvent::Start(tag) => EventView::Start(tag@),
            MdEvent::End(end) => EventView::End(end),
            MdEvent::Text(s) => EventView::Text(s@),
            MdEvent::Code(s) => EventView::Code(s@),
            MdEvent::Html(s) => EventView::Html(s@),
            MdEvent::InlineHtml(s) => EventView::InlineHtml(s@),
            MdEvent::FootnoteReference(s) => EventView::FootnoteReference(s@),
            MdEvent::SoftBreak => EventView::SoftBreak,
            MdEvent::HardBreak => EventView::HardBreak,
            MdEvent::Rule => EventView::Rule,
            MdEvent::TaskListMarker(b) => EventView::TaskListMarker(b),
            MdEvent::Other => EventView::Other,
        }
    }
}

/// The views of a list of events.
pub open spec fn event_views(v: Seq<MdEvent>) -> Seq<EventView> {
    v.map_values(|e: MdEvent| e@)
}

// ---------------------------------------------------------------------------
// Parsing
// ---------------------------------------------------------------------------

/// An event of pulldown_cmark.
#[verifier::external_type_specification]
#[verifier::external_body]
pub struct ExEvent<'a>(pulldown_cmark::Event<'a>);

/// What an event of pulldown_cmark holds.
pub uninterp spec fn event_held(e: pulldown_cmark::Event<'static>) -> EventView;

/// The events of a text, in a dialect with or without tables, footnotes,
/// strikethrough and task lists.
pub uninterp spec fn events_of(
    text: Seq<char>,
    tables: bool,
    footnotes: bool,
    strikethrough: bool,
    tasklists: bool,
) -> Seq<EventView>;

/// The events of a text in the dialect with all of these.
pub open spec fn md_events(text: Seq<char>) -> Seq<EventView> {
    events_of(text, true, true, true, true)
}

/// `Parser::new_ext` of pulldown_cmark, run to its end: the events are a
/// function of the text and the options.
#[verifier::external_body]
fn parse_text(
    text: &str,
    tables: bool,
    footnotes: bool,
    strikethrough: bool,
    tasklists: bool,
) -> (r: Vec<pulldown_cmark::Event<'static>>)
    ensures
        r@.map_values(|e: pulldown_cmark::Event<'static>| event_held(e)) == events_of(
            text@,
            tables,
            footnotes,
            strikethrough,
            tasklists,
        ),
{
    let mut options = Options::empty();
    options.set(Options::ENABLE_TABLES, tables);
    options.set(Options::ENABLE_FOOTNOTES, footnotes);
    options.set(Options::ENABLE_STRIKETHROUGH, strikethrough);
    options.set(Options::ENABLE_TASKLISTS, tasklists);
    Parser::new_ext(text, options).map(|e| e.into_static()).collect()
}

/// The opening element of an event, but for the alignments of a table.
pub enum OpenTag {
    Heading,
    CodeBlock,
    BlockQuote,
    List(Option<u64>),
    Item,
    Table,
    TableHead,
    TableRow,
    TableCell,
    Link(String),
    Other,
}

/// Whether `open` is the opening element `tag`.
pub open spec fn opens(open: OpenTag, tag: TagView) -> bool {
    match open {
        OpenTag::Heading => tag is Heading,
        OpenTag::CodeBlock => tag is CodeBlock,
        OpenTag::BlockQuote => tag is BlockQuote,
        OpenTag::List(first) => tag == TagView::List(first),
        OpenTag::Item => tag is Item,
        OpenTag::Table => tag is Table,
        OpenTag::TableHead => tag is TableHead,
        OpenTag::TableRow => tag is TableRow,
        OpenTag::TableCell => tag is TableCell,
        OpenTag::Link(url) => tag == TagView::Link(url@),
        OpenTag::Other => tag is Other,
    }
}

/// The variants of `Event::Start` of pulldown_cmark: which element opens, with
/// the number of a list and the address of a link.
#[verifier::external_body]
fn open_tag(e: &pulldown_cmark::Event<'static>) -> (r: Option<OpenTag>)
    ensures
        r is Some <==> event_held(*e) is Start,
        r matches Some(open) ==> opens(open, event_held(*e)->Start_0),
{
    let Event::Start(tag) = e else { return None };
    Some(match tag {
        Tag::Heading { .. } => OpenTag::Heading,
        Tag::CodeBlock(_) => OpenTag::CodeBlock,
        Tag::BlockQuote(_) => OpenTag::BlockQuote,
        Tag::List(first) => OpenTag::List(*first),
        Tag::Item => OpenTag::Item,
        Tag::Table(_) => OpenTag::Table,
        Tag::TableHead => OpenTag::TableHead,
        Tag::TableRow => OpenTag::TableRow,
        Tag::TableCell => OpenTag::TableCell,
        Tag::Link { dest_url, .. } => OpenTag::Link(dest_url.to_string()),
        _ => OpenTag::Other,
    })
}

/// `Tag::Table` of pulldown_cmark: the alignments of the columns of a table
/// that opens.
#[verifier::external_body]
fn table_aligns(e: &pulldown_cmark::Event<'static>) -> (r: Vec<Align>)
    ensures
        match event_held(*e) {
            EventView::Start(TagView::Table(a)) => r@ == a,
            _ => r@.len() == 0,
        },
{
    let Event::Start(Tag::Table(aligns)) = e else { return Vec::new() };
    aligns.iter().map(|a| match a {
        Alignment::None => Align::Unset,
        Alignment::Left => Align::Left,
        Alignment::Center => Align::Center,
        Alignment::Right => Align::Right,
    }).collect()
}

/// The variants of `Event::End` of pulldown_cmark: which element closes.
#[verifier::external_body]
fn close_tag(e: &pulldown_cmark::Event<'static>) -> (r: Option<MdTagEnd>)
    ensures
        r is Some <==> event_held(*e) is End,
        r matches Some(end) ==> event_held(*e) == EventView::End(end),
{
    let Event::End(end) = e else { return None };
    Some(match end {
        TagEnd::Paragraph => MdTagEnd::Paragraph,
        TagEnd::Heading(_) => MdTagEnd::Heading,
        TagEnd::CodeBlock => MdTagEnd::CodeBlock,
        TagEnd::BlockQuote(_) => MdTagEnd::BlockQuote,
        TagEnd::Item => MdTagEnd::Item,
        TagEnd::List(_) => MdTagEnd::List,
        TagEnd::Link => MdTagEnd::Link,
        TagEnd::Table => MdTagEnd::Table,
        TagEnd::TableHead => MdTagEnd::TableHead,
        TagEnd::TableRow => MdTagEnd::TableRow,
        TagEnd::TableCell => MdTagEnd::TableCell, _ => MdTagEnd::Other,
    })
}

/// The other variants of `Event` of pulldown_cmark, with their texts. The two
/// kinds of mathematics count as `Other`.
#[verifier::external_body]
fn inline_event(e: &pulldown_cmark::Event<'static>) -> (r: MdEvent)
    ensures
        match event_held(*e) {
            EventView::Start(_) | EventView::End(_) => r@ is Other,
            held => r@ == held,
        },
{
    match e {
        Event::Text(s) => MdEvent::Text(s.to_string()),
        Event::Code(s) => MdEvent::Code(s.to_string()),
        Event::Html(s) => MdEvent::Html(s.to_string()),
        Event::InlineHtml(s) => MdEvent::InlineHtml(s.to_string()),
        Event::FootnoteReference(s) => MdEvent::FootnoteReference(s.to_string()),
        Event::SoftBreak => MdEvent::SoftBreak,
        Event::HardBreak => MdEvent::HardBreak,
        Event::Rule => MdEvent::Rule,
        Event::TaskListMarker(b) => MdEvent::TaskListMarker(*b),
        _ => MdEvent::Other,
    }
}

/// What an event holds.
fn read_event(e: &pulldown_cmark::Event<'static>) -> (r: MdEvent)
    ensures
        r@ == event_held(*e),
{
    match open_tag(e) {
        Some(OpenTag::Heading) => MdEvent::Start(MdTag::Heading),
        Some(OpenTag::CodeBlock) => MdEvent::Start(MdTag::CodeBlock),
        Some(OpenTag::BlockQuote) => MdEvent::Start(MdTag::BlockQuote),
        Some(OpenTag::List(first)) => MdEvent::Start(MdTag::List(first)),
        Some(OpenTag::Item) => MdEvent::Start(MdTag::Item),
        Some(OpenTag::Table) => MdEvent::Start(MdTag::Table(table_aligns(e))),
        Some(OpenTag::TableHead) => MdEvent::Start(MdTag::TableHead),
        Some(OpenTag::TableRow) => MdEvent::Start(MdTag::TableRow),
        Some(OpenTag::TableCell) => MdEvent::Start(MdTag::TableCell),
        Some(OpenTag::Link(url)) => MdEvent::Start(MdTag::Link(url)),
        Some(OpenTag::Other) => MdEvent::Start(MdTag::Other),
        None => match close_tag(e) {
            Some(end) => MdEvent::End(end),
            None => inline_event(e),
        },
    }
}

/// The events of a text.
pub fn parse_markdown(text: &str) -> (r: Vec<MdEvent>)
    ensures
        event_views(r@) == md_events(text@),
{
    let parsed = parse_text(text, true, true, true, true);
    let ghost held = md_events(text@);
    let mut r: Vec<MdEvent> = Vec::new();
    let n: usize = parsed.len();
    assert(held.len() == parsed@.len());
    assert(event_views(r@) =~= held.take(0));
    for i in 0..n
        invariant
            n == parsed@.len(),
            held == parsed@.map_values(|e: pulldown_cmark::Event<'static>| event_held(e)),
            event_views(r@) == held.take(i as int),
    {
        let e = read_event(&parsed[i]);
        assert(held[i as int] == e@);
        let ghost before = event_views(r@);
        r.push(e);
        assert(event_views(r@) =~= before.push(e@));
        assert(held.take(i as int).push(held[i as int]) =~= held.take(i + 1));
    }
    assert(held.take(n as int) =~= held);
    r
}

} // verus!
