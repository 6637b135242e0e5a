use vstd::prelude::*;

use core::ops::Range;
use pulldown_cmark::{Event, Options};
use vstd::string::StringSliceAdditionalSpecFns;

use crate::cmark::{classify, clone_event, mk_link_end, mk_link_start, mk_text_event,
    parse_markdown};
use crate::overlay::{coalesce, coalesce_from, overlay, overlay_from, passthrough, BaseRec,
    OutItem, OverlayState};
use crate::span::Span;
use crate::token::{lex, tokenize};
use crate::wiki::{item_span, wiki_items_from, wiki_scan, WikiItem};

verus! {

/// The wikilink parser over one text span of a source string: recognizes
/// `[[target]]` and `[[target|alias]]` inside the span and yields link
/// triples for them and literal text events for everything else, each with
/// the byte range it covers.
pub struct WikiParser<'a> {
    source: &'a str,
    items: Vec<WikiItem>,
    pos: usize,
}

impl<'a> WikiParser<'a> {
    /// The items still to be yielded lie at `cursor()` and after in
    /// `wiki_items()`.
    pub closed spec fn wiki_items(self) -> Seq<WikiItem> {
        self.items@
    }

    pub closed spec fn cursor(self) -> int {
        self.pos as int
    }

    /// Scans `source[range]` for wikilinks. The items the parser will yield
    /// are exactly the wikilink parse of that span's tokens.
    pub fn new(source: &'a str, range: Range<usize>) -> (p: Self)
        requires
            range.start <= range.end,
            range.end <= source.spec_bytes().len(),
        ensures
            p.wiki_items() == wiki_items_from(
                lex(source.spec_bytes(), range.start as int, range.end as int),
                0,
            ),
            p.cursor() == 0,
    {
        let bytes = source.as_bytes();
        let toks = tokenize(bytes, range.start, range.end);
        let items = wiki_scan(&toks);
        WikiParser { source, items, pos: 0 }
    }

    /// Yields the next item as a Markdown event with its byte range, or
    /// nothing once the items are exhausted. The range is the span of the
    /// item under the cursor; the cursor moves one step.
    pub fn next(&mut self) -> (r: Option<(Event<'a>, Range<usize>)>)
        ensures
            final(self).wiki_items() == old(self).wiki_items(),
            old(self).cursor() >= old(self).wiki_items().len() ==> r is None && final(self).cursor()
                == old(self).cursor(),
            old(self).cursor() < old(self).wiki_items().len() ==> {
                let sp = item_span(old(self).wiki_items()[old(self).cursor()]);
                &&& final(self).cursor() == old(self).cursor() + 1
                &&& r matches Some(v)
                &&& r->Some_0.1.start == sp.start
                &&& r->Some_0.1.end == sp.end
            },
    {
        if self.pos >= self.items.len() {
            return None;
        }
        let it = self.items[self.pos];
        self.pos = self.pos + 1;
        match it {
            WikiItem::Text { span } => Some(
                (
                    mk_text_event(self.source, span.start, span.end),
                    Range { start: span.start, end: span.end },
                ),
            ),
            WikiItem::LinkStart { span, url } => Some(
                (
                    mk_link_start(self.source, url.start, url.end),
                    Range { start: span.start, end: span.end },
                ),
            ),
            WikiItem::LinkEnd { span } => Some(
                (mk_link_end(), Range { start: span.start, end: span.end }),
            ),
        }
    }
}

/// The overlaid Markdown event stream for a source string: the base
/// parser's events, text runs coalesced, with wikilink triples spliced in
/// wherever a plain-state text span contains `[[...]]` syntax.
pub struct ParserOffsetIter<'a> {
    source: &'a str,
    events: Vec<(Event<'a>, Range<usize>)>,
    recs: Ghost<Seq<BaseRec>>,
    out: Vec<OutItem>,
    pos: usize,
}

impl<'a> ParserOffsetIter<'a> {
    /// The classification under which the base events were routed: one
    /// record per base event, carrying its kind and byte span.
    pub closed spec fn base_recs(self) -> Seq<BaseRec> {
        self.recs@
    }

    /// The base events as the external parser produced them.
    pub closed spec fn base_events(self) -> Seq<(Event<'a>, Range<usize>)> {
        self.events@
    }

    /// The computed output stream, as plain items.
    pub closed spec fn out_items(self) -> Seq<OutItem> {
        self.out@
    }

    pub closed spec fn cursor(self) -> int {
        self.pos as int
    }

    pub closed spec fn src(self) -> Seq<u8> {
        self.source.spec_bytes()
    }

    /// Every pass-through output item points at a base event.
    pub closed spec fn wf(self) -> bool {
        forall|m: int|
            0 <= m < self.out@.len() ==> ((#[trigger] self.out@[m]) matches OutItem::Base { idx }
                ==> idx < self.events@.len())
    }

    /// Parses `source` with the base Markdown parser under `options` and
    /// computes the whole overlaid stream: the base events are classified
    /// and coalesced, and, when `wikilinks` is set, routed through the
    /// overlay state machine; otherwise the coalesced stream stands as is.
    pub fn new_ext(source: &'a str, options: Options, wikilinks: bool) -> (p: Self)
        ensures
            p.wf(),
            p.cursor() == 0,
            p.src() == source.spec_bytes(),
            p.base_recs().len() == p.base_events().len(),
            forall|m: int|
                0 <= m < p.base_recs().len() ==> (#[trigger] p.base_recs()[m]).span.start
                    == p.base_events()[m].1.start && p.base_recs()[m].span.end
                    == p.base_events()[m].1.end,
            wikilinks ==> p.out_items() == overlay_from(
                source.spec_bytes(),
                coalesce_from(p.base_recs(), 0),
                0,
                OverlayState::Plain,
            ),
            !wikilinks ==> p.out_items() == passthrough(coalesce_from(p.base_recs(), 0)),
    {
        let events = parse_markdown(source, options);
        let mut recs: Vec<BaseRec> = Vec::new();
        let mut k: usize = 0;
        while k < events.len()
            invariant
                k == recs@.len() <= events@.len(),
                forall|m: int|
                    0 <= m < k ==> (#[trigger] recs@[m]).span.start == events@[m].1.start
                        && recs@[m].span.end == events@[m].1.end,
            decreases events@.len() - k,
        {
            let kind = classify(&events[k].0);
            let start = events[k].1.start;
            let end = events[k].1.end;
            recs.push(BaseRec { kind, span: Span { start, end } });
            k = k + 1;
        }
        let coal = coalesce(&recs);
        let bytes = source.as_bytes();
        let out = overlay(bytes, &coal, wikilinks);
        proof {
            crate::overlay::lemma_coalesce_idx_bounded(recs@, 0);
            if wikilinks {
                crate::overlay::lemma_overlay_idx_bounded(
                    bytes@,
                    coal@,
                    0,
                    OverlayState::Plain,
                    events@.len() as int,
                );
            } else {
                crate::overlay::lemma_passthrough_idx_bounded(coal@, events@.len() as int);
            }
        }
        ParserOffsetIter { source, events, recs: Ghost(recs@), out, pos: 0 }
    }

    /// Yields the next output event with its byte range, or nothing once
    /// the stream is exhausted. A pass-through item yields the base event
    /// it points at, with the base parser's own range; a text or link item
    /// yields a synthesized event over its span.
    pub fn next(&mut self) -> (r: Option<(Event<'a>, Range<usize>)>)
        ensures
            final(self).out_items() == old(self).out_items(),
            final(self).base_events() == old(self).base_events(),
            final(self).base_recs() == old(self).base_recs(),
            final(self).src() == old(self).src(),
            final(self).wf() <==> old(self).wf(),
            old(self).cursor() >= old(self).out_items().len() ==> r is None && final(self).cursor()
                == old(self).cursor(),
            old(self).wf() && old(self).cursor() < old(self).out_items().len() ==> {
                let it = old(self).out_items()[old(self).cursor()];
                &&& final(self).cursor() == old(self).cursor() + 1
                &&& r matches Some(v)
                &&& match it {
                    OutItem::Base { idx } => r->Some_0.1.start == old(self).base_events()[
                        idx as int
                    ].1.start && r->Some_0.1.end == old(self).base_events()[idx as int].1.end,
                    OutItem::Text { span } => r->Some_0.1.start == span.start && r->Some_0.1.end
                        == span.end,
                    OutItem::LinkStart { span, url } => r->Some_0.1.start == span.start
                        && r->Some_0.1.end == span.end,
                    OutItem::LinkEnd { span } => r->Some_0.1.start == span.start
                        && r->Some_0.1.end == span.end,
                }
            },
    {
        if self.pos >= self.out.len() {
            return None;
        }
        let it = self.out[self.pos];
        match it {
            OutItem::Base { idx } => {
                if idx >= self.events.len() {
                    return None;
                }
                self.pos = self.pos + 1;
                let ev = clone_event(&self.events[idx].0);
                let start = self.events[idx].1.start;
                let end = self.events[idx].1.end;
                Some((ev, Range { start, end }))
            },
            OutItem::Text { span } => {
                self.pos = self.pos + 1;
                Some(
                    (
                        mk_text_event(self.source, span.start, span.end),
                        Range { start: span.start, end: span.end },
                    ),
                )
            },
            OutItem::LinkStart { span, url } => {
                self.pos = self.pos + 1;
                Some(
                    (
                        mk_link_start(self.source, url.start, url.end),
                        Range { start: span.start, end: span.end },
                    ),
                )
            },
            OutItem::LinkEnd { span } => {
                self.pos = self.pos + 1;
                Some((mk_link_end(), Range { start: span.start, end: span.end }))
            },
        }
    }

}

} // verus!
