//! A wikilink overlay for Markdown event streams.
//!
//! The library recognizes `[[target]]` and `[[target|alias]]` syntax inside
//! the text of a parsed Markdown document and splices structured link
//! events into the event stream, preserving the byte range of every event.
//! Text events are first coalesced into maximal non-empty runs; a state
//! machine keeps front-matter metadata and fenced code blocks untouched;
//! malformed wikilink syntax degrades to the literal text it was written as.
pub mod span;
pub mod token;
pub mod wiki;
pub mod overlay;
pub mod cmark;
pub mod stream;

pub use stream::{ParserOffsetIter, WikiParser};
