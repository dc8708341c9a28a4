//! The library's model of a structural document event, and the trusted
//! boundary to the external markup parser and HTML renderer.
//!
//! The transforms in this crate read and rewrite only text runs, code spans,
//! code-block boundaries and link-start events; every other kind of event is
//! carried through opaquely in the `Other` variant.

use vstd::prelude::*;

use pulldown_cmark::{CodeBlockKind, Event, LinkType, Options, Parser, Tag, TagEnd};

verus! {

#[verifier::external_type_specification]
#[verifier::external_body]
pub struct ExEvent<'a>(Event<'a>);

#[verifier::external_type_specification]
#[verifier::external_body]
pub struct ExLinkType(LinkType);

/// One unit of parsed document structure, in emission order.
pub enum MdEvent {
    /// A prose text run.
    Text(String),
    /// An inline code span; verbatim content.
    Code(String),
    /// Start of a fenced code block, carrying its info string.
    CodeBlockStart(String),
    /// Start of an indented code block; it has no info string.
    IndentedCodeBlockStart,
    /// End of a code block of either kind.
    CodeBlockEnd,
    /// Start of a link: its kind, destination, title and reference identifier.
    LinkStart(LinkType, String, String, String),
    /// End of a link.
    LinkEnd,
    /// Any other event, carried through unchanged.
    Other(Event<'static>),
}

/// The mathematical shape of an event: each carried string as a `Seq<char>`.
#[verifier::ext_equal]
pub enum EventView {
    Text(Seq<char>),
    Code(Seq<char>),
    CodeBlockStart(Seq<char>),
    IndentedCodeBlockStart,
    CodeBlockEnd,
    LinkStart(LinkType, Seq<char>, Seq<char>, Seq<char>),
    LinkEnd,
    Other(Event<'static>),
}

impl View for MdEvent {
    type V = EventView;

    open spec fn view(&self) -> EventView {
        match self {
            MdEvent::Text(s) => EventView::Text(s@),
            MdEvent::Code(s) => EventView::Code(s@),
            MdEvent::CodeBlockStart(s) => EventView::CodeBlockStart(s@),
            MdEvent::IndentedCodeBlockStart => EventView::IndentedCodeBlockStart,
            MdEvent::CodeBlockEnd => EventView::CodeBlockEnd,
            MdEvent::LinkStart(k, d, t, id) => EventView::LinkStart(*k, d@, t@, id@),
            MdEvent::LinkEnd => EventView::LinkEnd,
            MdEvent::Other(e) => EventView::Other(*e),
        }
    }
}

/// The views of a sequence of events, in order.
pub open spec fn views_of(evs: Seq<MdEvent>) -> Seq<EventView> {
    evs.map_values(|e: MdEvent| e@)
}

/// The event stream that the external markup parser produces for a document;
/// the parse is a function of the text alone.
pub uninterp spec fn parse_events_of(text: Seq<char>) -> Seq<EventView>;

/// The HTML text that the external renderer produces for an event stream;
/// the same events give byte-identical output.
pub uninterp spec fn html_of(events: Seq<EventView>) -> Seq<char>;

/// Maps one event of the external parser to the library's event model:
/// one arm per variant of interest, moving fields only. Its meaning is
/// stated by the contract of `parse_markdown`.
#[verifier::external_body]
fn event_from_md(ev: Event<'static>) -> MdEvent {
    match ev {
        Event::Text(s) => MdEvent::Text(s.into_string()),
        Event::Code(s) => MdEvent::Code(s.into_string()),
        Event::Start(Tag::CodeBlock(CodeBlockKind::Fenced(i))) => MdEvent::CodeBlockStart(i.into_string()),
        Event::Start(Tag::CodeBlock(CodeBlockKind::Indented)) => MdEvent::IndentedCodeBlockStart,
        Event::End(TagEnd::CodeBlock) => MdEvent::CodeBlockEnd,
        Event::Start(Tag::Link { link_type, dest_url, title, id }) => MdEvent::LinkStart(link_type, dest_url.into_string(), title.into_string(), id.into_string()),
        Event::End(TagEnd::Link) => MdEvent::LinkEnd,
        other => MdEvent::Other(other),
    }
}

/// Maps one library event back to the external parser's event model:
/// the inverse of `event_from_md`, one arm per variant, moving fields only.
#[verifier::external_body]
fn event_to_md(ev: MdEvent) -> Event<'static> {
    match ev {
        MdEvent::Text(s) => Event::Text(s.into()),
        MdEvent::Code(s) => Event::Code(s.into()),
        MdEvent::CodeBlockStart(i) => Event::Start(Tag::CodeBlock(CodeBlockKind::Fenced(i.into()))),
        MdEvent::IndentedCodeBlockStart => Event::Start(Tag::CodeBlock(CodeBlockKind::Indented)),
        MdEvent::CodeBlockEnd => Event::End(TagEnd::CodeBlock),
        MdEvent::LinkStart(k, d, t, id) => Event::Start(Tag::Link { link_type: k, dest_url: d.into(), title: t.into(), id: id.into() }),
        MdEvent::LinkEnd => Event::End(TagEnd::Link),
        MdEvent::Other(e) => e,
    }
}

/// Relies on `pulldown_cmark::Parser::new_ext`: parsing is deterministic in
/// the text, with tables and footnotes enabled; each parsed event is carried
/// into the library's event model by `event_from_md`.
#[verifier::external_body]
pub fn parse_markdown(text: &str) -> (r: Vec<MdEvent>)
    ensures
        views_of(r@) == parse_events_of(text@),
{
    let mut opts = Options::empty();
    opts.insert(Options::ENABLE_TABLES);
    opts.insert(Options::ENABLE_FOOTNOTES);
    let parser = Parser::new_ext(text, opts);
    parser.map(|ev| event_from_md(ev.into_static())).collect()
}

/// Relies on `pulldown_cmark::html::push_html`: serialization is
/// deterministic in the event sequence; each library event is carried back
/// by `event_to_md`.
#[verifier::external_body]
pub fn render_events(events: Vec<MdEvent>) -> (r: String)
    ensures
        r@ == html_of(views_of(events@)),
{
    let mut s = String::new();
    pulldown_cmark::html::push_html(&mut s, events.into_iter().map(event_to_md));
    s
}

} // verus!
