//! Markdown source to a flat list of parse events, as `pulldown-cmark`
//! reads it; the renderer works on these events alone.

use vstd::prelude::*;
use pulldown_cmark::{CodeBlockKind, Event, Options, Parser, Tag, TagEnd};

verus! {

#[verifier::external_type_specification]
#[verifier::external_body]
pub struct ExEvent<'a>(Event<'a>);

#[verifier::external_type_specification]
#[verifier::external_body]
pub struct ExTag<'a>(Tag<'a>);

#[verifier::external_type_specification]
#[verifier::external_body]
pub struct ExTagEnd(TagEnd);

/// The start of a block or inline element.
pub enum MdStart {
    Paragraph,
    Heading(u8),
    BlockQuote,
    /// A fenced block with its info string, or an indented block (`None`).
    CodeBlock(Option<String>),
    List,
    Item,
    FootnoteDefinition(String),
    Table,
    TableHead,
    TableRow,
    TableCell,
    Emphasis,
    Strong,
    Strikethrough,
    /// A link with its destination.
    Link(String),
    /// An image with its destination.
    Image(String),
    Other,
}

/// The end of a block or inline element.
#[derive(Clone, Copy, PartialEq, Eq, Structural)]
pub enum MdEnd {
    Paragraph,
    Heading,
    BlockQuote,
    CodeBlock,
    List,
    Item,
    FootnoteDefinition,
    Table,
    TableHead,
    TableRow,
    TableCell,
    Emphasis,
    Strong,
    Strikethrough,
    Link,
    Image,
    Other,
}

/// One parse event.
pub enum MdEvent {
    Start(MdStart),
    End(MdEnd),
    Text(String),
    Code(String),
    SoftBreak,
    HardBreak,
    Rule,
    TaskListMarker(bool),
    FootnoteReference(String),
    Other,
}

pub enum MdStartV {
    Paragraph,
    Heading(u8),
    BlockQuote,
    CodeBlock(Option<Seq<char>>),
    List,
    Item,
    FootnoteDefinition(Seq<char>),
    Table,
    TableHead,
    TableRow,
    TableCell,
    Emphasis,
    Strong,
    Strikethrough,
    Link(Seq<char>),
    Image(Seq<char>),
    Other,
}

pub enum MdEventV {
    Start(MdStartV),
    End(MdEnd),
    Text(Seq<char>),
    Code(Seq<char>),
    SoftBreak,
    HardBreak,
    Rule,
    TaskListMarker(bool),
    FootnoteReference(Seq<char>),
    Other,
}

impl View for MdStart {
    type V = MdStartV;

    open spec fn view(&self) -> MdStartV {
        match self {
            MdStart::Paragraph => MdStartV::Paragraph,
            MdStart::Heading(l) => MdStartV::Heading(*l),
            MdStart::BlockQuote => MdStartV::BlockQuote,
            MdStart::CodeBlock(info) => MdStartV::CodeBlock(match info {
                Some(s) => Some(s@),
                None => None,
            }),
            MdStart::List => MdStartV::List,
            MdStart::Item => MdStartV::Item,
            MdStart::FootnoteDefinition(n) => MdStartV::FootnoteDefinition(n@),
            MdStart::Table => MdStartV::Table,
            MdStart::TableHead => MdStartV::TableHead,
            MdStart::TableRow => MdStartV::TableRow,
            MdStart::TableCell => MdStartV::TableCell,
            MdStart::Emphasis => MdStartV::Emphasis,
            MdStart::Strong => MdStartV::Strong,
            MdStart::Strikethrough => MdStartV::Strikethrough,
            MdStart::Link(u) => MdStartV::Link(u@),
            MdStart::Image(u) => MdStartV::Image(u@),
            MdStart::Other => MdStartV::Other,
        }
    }
}

impl View for MdEvent {
    type V = MdEventV;

    open spec fn view(&self) -> MdEventV {
        match self {
            MdEvent::Start(s) => MdEventV::Start(s@),
            MdEvent::End(e) => MdEventV::End(*e),
            MdEvent::Text(t) => MdEventV::Text(t@),
            MdEvent::Code(t) => MdEventV::Code(t@),
            MdEvent::SoftBreak => MdEventV::SoftBreak,
            MdEvent::HardBreak => MdEventV::HardBreak,
            MdEvent::Rule => MdEventV::Rule,
            MdEvent::TaskListMarker(b) => MdEventV::TaskListMarker(*b),
            MdEvent::FootnoteReference(n) => MdEventV::FootnoteReference(n@),
            MdEvent::Other => MdEventV::Other,
        }
    }
}

/// The events of `pulldown_cmark::Parser::new_ext` over `src`: with task
/// lists, strikethrough, tables and footnotes enabled, or with footnotes
/// alone.
pub uninterp spec fn markdown_events(src: Seq<char>, footnotes_only: bool) -> Seq<MdEventV>;

/// `pulldown_cmark::Parser::new_ext(src, options)`, collected: with
/// `footnotes_only` the options are `ENABLE_FOOTNOTES`, otherwise
/// `ENABLE_TASKLISTS | ENABLE_STRIKETHROUGH | ENABLE_TABLES |
/// ENABLE_FOOTNOTES`. Each event is converted to an [`MdEvent`]; nothing
/// more is claimed of the parse than that it is a function of its input.
#[verifier::external_body]
pub fn parse_markdown(src: &str, footnotes_only: bool) -> (r: Vec<MdEvent>)
    ensures
        r@.map_values(|e: MdEvent| e@) == markdown_events(src@, footnotes_only),
{
    let options = if footnotes_only {
        Options::ENABLE_FOOTNOTES
    } else {
        Options::ENABLE_TASKLISTS | Options::ENABLE_STRIKETHROUGH | Options::ENABLE_TABLES | Options::ENABLE_FOOTNOTES
    };
    let mut out = Vec::new();
    for e in Parser::new_ext(src, options) {
        out.push(convert_event(e));
    }
    out
}

/// Converts one `pulldown_cmark::Event`, variant for variant; math and
/// HTML events become `Other`.
#[verifier::external_body]
fn convert_event(e: Event) -> MdEvent {
    match e {
        Event::Start(t) => MdEvent::Start(convert_start(t)),
        Event::End(t) => MdEvent::End(convert_end(t)),
        Event::Text(s) => MdEvent::Text(s.to_string()),
        Event::Code(s) => MdEvent::Code(s.to_string()),
        Event::SoftBreak => MdEvent::SoftBreak,
        Event::HardBreak => MdEvent::HardBreak,
        Event::Rule => MdEvent::Rule,
        Event::TaskListMarker(b) => MdEvent::TaskListMarker(b),
        Event::FootnoteReference(s) => MdEvent::FootnoteReference(s.to_string()),
        _ => MdEvent::Other,
    }
}

/// Converts a block-level `pulldown_cmark::Tag`; inline tags go on to
/// [`convert_inline_start`].
#[verifier::external_body]
fn convert_start(t: Tag) -> MdStart {
    match t {
        Tag::Paragraph => MdStart::Paragraph,
        Tag::Heading { level, .. } => MdStart::Heading(level as u8),
        Tag::BlockQuote(_) => MdStart::BlockQuote,
        Tag::CodeBlock(CodeBlockKind::Fenced(s)) => MdStart::CodeBlock(Some(s.to_string())),
        Tag::CodeBlock(CodeBlockKind::Indented) => MdStart::CodeBlock(None),
        Tag::List(_) => MdStart::List,
        Tag::Item => MdStart::Item,
        Tag::FootnoteDefinition(s) => MdStart::FootnoteDefinition(s.to_string()),
        Tag::Table(_) => MdStart::Table,
        Tag::TableHead => MdStart::TableHead,
        Tag::TableRow => MdStart::TableRow,
        Tag::TableCell => MdStart::TableCell,
        other => convert_inline_start(other),
    }
}

/// Converts an inline `pulldown_cmark::Tag`; the rest become `Other`.
#[verifier::external_body]
fn convert_inline_start(t: Tag) -> MdStart {
    match t {
        Tag::Emphasis => MdStart::Emphasis,
        Tag::Strong => MdStart::Strong,
        Tag::Strikethrough => MdStart::Strikethrough,
        Tag::Link { dest_url, .. } => MdStart::Link(dest_url.to_string()),
        Tag::Image { dest_url, .. } => MdStart::Image(dest_url.to_string()),
        _ => MdStart::Other,
    }
}

/// Converts a block-level `pulldown_cmark::TagEnd`; inline ends go on to
/// [`convert_inline_end`].
#[verifier::external_body]
fn convert_end(t: TagEnd) -> MdEnd {
    match t {
        TagEnd::Paragraph => MdEnd::Paragraph,
        TagEnd::Heading(_) => MdEnd::Heading,
        TagEnd::BlockQuote(_) => MdEnd::BlockQuote,
        TagEnd::CodeBlock => MdEnd::CodeBlock,
        TagEnd::List(_) => MdEnd::List,
        TagEnd::Item => MdEnd::Item,
        TagEnd::FootnoteDefinition => MdEnd::FootnoteDefinition,
        TagEnd::Table => MdEnd::Table,
        TagEnd::TableHead => MdEnd::TableHead,
        TagEnd::TableRow => MdEnd::TableRow,
        TagEnd::TableCell => MdEnd::TableCell,
        other => convert_inline_end(other),
    }
}

/// Converts an inline `pulldown_cmark::TagEnd`; the rest become `Other`.
#[verifier::external_body]
fn convert_inline_end(t: TagEnd) -> MdEnd {
    match t {
        TagEnd::Emphasis => MdEnd::Emphasis,
        TagEnd::Strong => MdEnd::Strong,
        TagEnd::Strikethrough => MdEnd::Strikethrough,
        TagEnd::Link => MdEnd::Link,
        TagEnd::Image => MdEnd::Image,
        _ => MdEnd::Other,
    }
}

} // verus!
