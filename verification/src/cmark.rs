//! The boundary to pulldown-cmark: type declarations and the few wrappers
//! through which the library calls it. Everything else in the crate works on
//! plain byte spans and is verified against the contracts stated here.
use vstd::prelude::*;

use core::ops::Range;
use pulldown_cmark::{CowStr, Event, LinkType, Options, Parser, Tag, TagEnd};

use crate::overlay::EvKind;

verus! {

#[verifier::external_type_specification]
#[verifier::external_body]
pub struct ExEvent<'a>(Event<'a>);

#[verifier::external_type_specification]
#[verifier::external_body]
pub struct ExOptions(Options);

/// Relies on pulldown_cmark's `Parser::new_ext` and `into_offset_iter`: the
/// base Markdown event stream over the whole source, each event with the
/// byte range it came from.
#[verifier::external_body]
pub(crate) fn parse_markdown<'a>(source: &'a str, options: Options) -> (evs: Vec<
    (Event<'a>, Range<usize>),
>) {
    Parser::new_ext(source, options).into_offset_iter().collect()
}

/// Relies on pulldown_cmark's `Event` variants: tells apart the event kinds
/// the overlay routes on, one arm per kind.
#[verifier::external_body]
pub(crate) fn classify(e: &Event<'_>) -> (k: EvKind) {
    match e {
        Event::Text(_) => EvKind::Text,
        Event::Start(Tag::MetadataBlock(_)) => EvKind::StartMetadata,
        Event::End(TagEnd::MetadataBlock(_)) => EvKind::EndMetadata,
        Event::Start(Tag::CodeBlock(_)) => EvKind::StartCode,
        Event::End(TagEnd::CodeBlock) => EvKind::EndCode,
        _ => EvKind::Other,
    }
}

/// Relies on `CowStr::Borrowed`: a text event holding the source slice
/// `[start, end)`; empty when the range is not a valid slice.
#[verifier::external_body]
pub(crate) fn mk_text_event<'a>(source: &'a str, start: usize, end: usize) -> (e: Event<'a>) {
    Event::Text(CowStr::Borrowed(source.get(start..end).unwrap_or("")))
}

/// Relies on `Tag::Link`: the opening event of an inline link whose
/// destination is the source slice `[start, end)` and whose title is
/// "wiki"; empty destination when the range is not a valid slice.
#[verifier::external_body]
pub(crate) fn mk_link_start<'a>(source: &'a str, start: usize, end: usize) -> (e: Event<'a>) {
    Event::Start(
        Tag::Link {
            link_type: LinkType::Inline,
            dest_url: CowStr::Borrowed(source.get(start..end).unwrap_or("")),
            title: CowStr::Borrowed("wiki"),
            id: CowStr::Borrowed(""),
        },
    )
}

/// Relies on `TagEnd::Link`: the closing event of a link.
#[verifier::external_body]
pub(crate) fn mk_link_end() -> (e: Event<'static>) {
    Event::End(TagEnd::Link)
}

/// Relies on `Event::clone`.
#[verifier::external_body]
pub(crate) fn clone_event<'a>(e: &Event<'a>) -> (r: Event<'a>) {
    e.clone()
}

} // verus!
