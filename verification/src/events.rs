//! The markdown event stream. A document body is parsed by the
//! `pulldown_cmark` crate into a sequence of semantic events; the
//! pipeline only inspects code-block boundaries and text, so every other
//! event is carried through opaquely and handed back to the same crate's
//! HTML serializer at the end.
use pulldown_cmark::CodeBlockKind;
use pulldown_cmark::CowStr;
use pulldown_cmark::Event;
use pulldown_cmark::Options;
use pulldown_cmark::Parser;
use pulldown_cmark::Tag;
use pulldown_cmark::TagEnd;
use vstd::prelude::*;

verus! {

#[verifier::external_type_specification]
#[verifier::external_body]
pub struct ExEvent<'a>(Event<'a>);

/// One event of the stream, as the pipeline sees it: the boundaries and
/// text of code blocks are decoded into plain values, rewritten fragments
/// are raw HTML, and everything else is an opaque parser event carried
/// through unchanged.
pub enum MdEvent {
    /// A code block opens; the token is the declared language of a fenced
    /// block (possibly empty), or absent for an indented block.
    CodeStart(Option<String>),
    /// A code block closes.
    CodeEnd,
    /// A text node.
    Text(String),
    /// A raw HTML fragment passed through to the serializer.
    Html(String),
    /// Any other parser event, forwarded untouched.
    Carry(Event<'static>),
}

/// The mathematical view of one event.
pub ghost enum EvView {
    CodeStart(Option<Seq<char>>),
    CodeEnd,
    Text(Seq<char>),
    Html(Seq<char>),
    Carry(Event<'static>),
}

impl DeepView for MdEvent {
    type V = EvView;

    open spec fn deep_view(&self) -> EvView {
        match self {
            MdEvent::CodeStart(t) => EvView::CodeStart(t.deep_view()),
            MdEvent::CodeEnd => EvView::CodeEnd,
            MdEvent::Text(s) => EvView::Text(s.deep_view()),
            MdEvent::Html(s) => EvView::Html(s.deep_view()),
            MdEvent::Carry(e) => EvView::Carry(*e),
        }
    }
}

/// The event stream that `pulldown_cmark` produces for a document under
/// the pipeline's fixed feature set (tables, footnotes, strikethrough,
/// task lists). The parser is a pure function of the source text, so the
/// stream is named rather than spelled out.
pub uninterp spec fn md_events(s: Seq<char>) -> Seq<EvView>;

/// The HTML that `pulldown_cmark`'s serializer renders for an event
/// stream. Also a pure function of its input, and also named.
pub uninterp spec fn html_of(evs: Seq<EvView>) -> Seq<char>;

/// Relies on `pulldown_cmark::Parser::new_ext`: parsing is deterministic
/// in the source text and the (fixed) option set. Each event is decoded
/// into the pipeline's own representation; events the pipeline does not
/// inspect are carried through.
#[verifier::external_body]
pub(crate) fn parse_events(md: &str) -> (r: Vec<MdEvent>)
    ensures
        r.deep_view() == md_events(md@),
{
    let opts = Options::ENABLE_TABLES | Options::ENABLE_FOOTNOTES | Options::ENABLE_STRIKETHROUGH
        | Options::ENABLE_TASKLISTS;
    Parser::new_ext(md, opts).map(|ev| match ev {
        Event::Start(Tag::CodeBlock(CodeBlockKind::Fenced(t))) => MdEvent::CodeStart(
            Some(t.into_string()),
        ),
        Event::Start(Tag::CodeBlock(CodeBlockKind::Indented)) => MdEvent::CodeStart(None),
        Event::End(TagEnd::CodeBlock) => MdEvent::CodeEnd,
        Event::Text(t) => MdEvent::Text(t.into_string()),
        other => MdEvent::Carry(other.into_static()),
    }).collect()
}

/// Relies on `pulldown_cmark::html::push_html`: serialization is
/// deterministic in the event stream. The pipeline's decoded events are
/// turned back into the parser's own before serializing.
#[verifier::external_body]
pub(crate) fn render_events(events: Vec<MdEvent>) -> (r: String)
    ensures
        r@ == html_of(events.deep_view()),
{
    let mut out = String::new();
    pulldown_cmark::html::push_html(&mut out, events.into_iter().map(|ev| match ev {
        MdEvent::CodeStart(Some(t)) => Event::Start(Tag::CodeBlock(CodeBlockKind::Fenced(
            CowStr::from(t),
        ))),
        MdEvent::CodeStart(None) => Event::Start(Tag::CodeBlock(CodeBlockKind::Indented)),
        MdEvent::CodeEnd => Event::End(TagEnd::CodeBlock),
        MdEvent::Text(t) => Event::Text(CowStr::from(t)),
        MdEvent::Html(h) => Event::Html(CowStr::from(h)),
        MdEvent::Carry(ev) => ev,
    }));
    out
}

} // verus!
