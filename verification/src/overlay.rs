use vstd::prelude::*;

use crate::span::Span;
use crate::token::{lex, tokenize};
use crate::wiki::{wiki_items_from, wiki_scan, WikiItem};

verus! {

/// What the overlay reads of a base event: whether it is text, opens or
/// closes an opaque region, or is anything else (passed through untouched).
#[derive(Clone, Copy, PartialEq, Eq, Structural, Debug)]
pub enum EvKind {
    Text,
    StartMetadata,
    EndMetadata,
    StartCode,
    EndCode,
    Other,
}

/// The overlay's view of one base event: its kind and the byte span its
/// source range covers.
#[derive(Clone, Copy, PartialEq, Eq, Structural, Debug)]
pub struct BaseRec {
    pub kind: EvKind,
    pub span: Span,
}

/// One event after text coalescing: a non-text base event, identified by its
/// index in the base stream, or a merged non-empty text span.
#[derive(Clone, Copy, PartialEq, Eq, Structural, Debug)]
pub enum CoalItem {
    NonText { idx: usize, kind: EvKind },
    Text { span: Span },
}

/// One event of the overlay's output: a base event passed through
/// unchanged, a text event re-sliced from the source, or a synthesized
/// wikilink marker.
#[derive(Clone, Copy, PartialEq, Eq, Structural, Debug)]
pub enum OutItem {
    Base { idx: usize },
    Text { span: Span },
    LinkStart { span: Span, url: Span },
    LinkEnd { span: Span },
}

/// Which opaque region, if any, the overlay is inside. The three states are
/// mutually exclusive by construction.
#[derive(Clone, Copy, PartialEq, Eq, Structural, Debug)]
pub enum OverlayState {
    Plain,
    InMetadata,
    InCodeBlock,
}

/// The index of the first event at or after `i` that is not a text event;
/// `evs.len()` if all are.
pub open spec fn text_run_end(evs: Seq<BaseRec>, i: int) -> int
    decreases evs.len() - i,
{
    if i >= evs.len() {
        evs.len() as int
    } else if evs[i].kind != EvKind::Text {
        i
    } else {
        text_run_end(evs, i + 1)
    }
}

pub proof fn lemma_text_run_end_bounds(evs: Seq<BaseRec>, i: int)
    requires
        0 <= i <= evs.len(),
    ensures
        i <= text_run_end(evs, i) <= evs.len(),
    decreases evs.len() - i,
{
    if i < evs.len() && evs[i].kind == EvKind::Text {
        lemma_text_run_end_bounds(evs, i + 1);
    }
}

/// The coalesced stream from event `i` on: empty text events are dropped,
/// each maximal run of text events merges into one span from the first
/// non-empty text's start to the run's last end, and every other event is
/// kept, one at a time.
pub open spec fn coalesce_from(evs: Seq<BaseRec>, i: int) -> Seq<CoalItem>
    decreases evs.len() - i,
    when 0 <= i
    via coalesce_decreases
{
    let n = evs.len() as int;
    if i >= n {
        Seq::empty()
    } else if evs[i].kind != EvKind::Text {
        seq![CoalItem::NonText { idx: i as usize, kind: evs[i].kind }] + coalesce_from(evs, i + 1)
    } else if evs[i].span.start == evs[i].span.end {
        coalesce_from(evs, i + 1)
    } else {
        let j = text_run_end(evs, i + 1);
        seq![CoalItem::Text { span: Span { start: evs[i].span.start, end: evs[j - 1].span.end } }]
            + coalesce_from(evs, j)
    }
}

#[via_fn]
proof fn coalesce_decreases(evs: Seq<BaseRec>, i: int) {
    if i < evs.len() && evs[i].kind == EvKind::Text && evs[i].span.start != evs[i].span.end {
        lemma_text_run_end_bounds(evs, i + 1);
    }
}

/// Coalesces a whole base stream.
pub fn coalesce(evs: &Vec<BaseRec>) -> (items: Vec<CoalItem>)
    ensures
        items@ == coalesce_from(evs@, 0),
{
    let n = evs.len();
    let mut items: Vec<CoalItem> = Vec::new();
    let mut pos: usize = 0;
    while pos < n
        invariant
            pos <= n == evs@.len(),
            coalesce_from(evs@, 0) == items@ + coalesce_from(evs@, pos as int),
        decreases n - pos,
    {
        let ghost i = pos as int;
        let rec = evs[pos];
        if rec.kind != EvKind::Text {
            items.push(CoalItem::NonText { idx: pos, kind: rec.kind });
            pos = pos + 1;
        } else if rec.span.start == rec.span.end {
            pos = pos + 1;
        } else {
            let start = rec.span.start;
            let mut end = rec.span.end;
            pos = pos + 1;
            while pos < n && evs[pos].kind == EvKind::Text
                invariant
                    i + 1 <= pos <= n == evs@.len(),
                    text_run_end(evs@, i + 1) == text_run_end(evs@, pos as int),
                    end == evs@[pos - 1].span.end,
                decreases n - pos,
            {
                end = evs[pos].span.end;
                pos = pos + 1;
            }
            items.push(CoalItem::Text { span: Span { start, end } });
        }
        proof {
            assert(coalesce_from(evs@, 0) =~= items@ + coalesce_from(evs@, pos as int));
        }
    }
    items
}

/// No text item of the coalesced stream covers an empty span.
pub open spec fn coal_no_empty_text(items: Seq<CoalItem>) -> bool {
    forall|m: int|
        0 <= m < items.len() ==> ((#[trigger] items[m]) matches CoalItem::Text { span }
            ==> span.start < span.end)
}

/// The base event spans run forward: each is well formed and none starts
/// before the previous one ends. The collaborator that produces the base
/// stream promises this of its ranges.
pub open spec fn base_spans_ordered(evs: Seq<BaseRec>) -> bool {
    &&& (forall|k: int| 0 <= k < evs.len() ==> (#[trigger] evs[k]).span.wf())
    &&& (forall|k: int|
        0 <= k < evs.len() - 1 ==> (#[trigger] evs[k]).span.end <= evs[k + 1].span.start)
}

/// Event spans that are pairwise ordered stay ordered across a distance.
proof fn lemma_spans_ordered(evs: Seq<BaseRec>, a: int, b: int)
    requires
        0 <= a <= b < evs.len(),
        base_spans_ordered(evs),
    ensures
        evs[a].span.end <= evs[b].span.end,
    decreases b - a,
{
    if a < b {
        lemma_spans_ordered(evs, a + 1, b);
    }
}

/// The coalescer never emits an empty text span.
#[verifier::rlimit(60)]
pub proof fn lemma_coalesce_no_empty_text(evs: Seq<BaseRec>, i: int)
    requires
        0 <= i <= evs.len(),
        base_spans_ordered(evs),
    ensures
        coal_no_empty_text(coalesce_from(evs, i)),
    decreases evs.len() - i,
{
    let n = evs.len() as int;
    let c = coalesce_from(evs, i);
    if i >= n {
    } else if evs[i].kind != EvKind::Text || evs[i].span.start == evs[i].span.end {
        lemma_coalesce_no_empty_text(evs, i + 1);
        let rest = coalesce_from(evs, i + 1);
        assert forall|m: int|
            0 <= m < c.len() implies ((#[trigger] c[m]) matches CoalItem::Text { span }
            ==> span.start < span.end) by {
            if evs[i].kind != EvKind::Text && m > 0 {
                assert(c[m] == rest[m - 1]);
            }
        }
    } else {
        let j = text_run_end(evs, i + 1);
        lemma_text_run_end_bounds(evs, i + 1);
        lemma_coalesce_no_empty_text(evs, j);
        lemma_spans_ordered(evs, i, j - 1);
        let rest = coalesce_from(evs, j);
        assert forall|m: int|
            0 <= m < c.len() implies ((#[trigger] c[m]) matches CoalItem::Text { span }
            ==> span.start < span.end) by {
            if m > 0 {
                assert(c[m] == rest[m - 1]);
            }
        }
    }
}

/// Every base index the coalescer keeps points into the base stream.
pub proof fn lemma_coalesce_idx_bounded(evs: Seq<BaseRec>, i: int)
    requires
        0 <= i <= evs.len(),
    ensures
        forall|m: int|
            0 <= m < coalesce_from(evs, i).len() ==> ((#[trigger] coalesce_from(evs, i)[m])
                matches CoalItem::NonText { idx, kind } ==> idx < evs.len()),
    decreases evs.len() - i,
{
    let n = evs.len() as int;
    if i >= n {
    } else if evs[i].kind != EvKind::Text || evs[i].span.start == evs[i].span.end {
        lemma_coalesce_idx_bounded(evs, i + 1);
    } else {
        lemma_text_run_end_bounds(evs, i + 1);
        lemma_coalesce_idx_bounded(evs, text_run_end(evs, i + 1));
    }
}

/// The state after observing a non-text event of kind `k`: a metadata or
/// code start seen in the plain state opens that region, the matching end
/// closes it again, and every other observation leaves the state alone.
pub open spec fn step_state(st: OverlayState, k: EvKind) -> OverlayState {
    match (st, k) {
        (OverlayState::Plain, EvKind::StartMetadata) => OverlayState::InMetadata,
        (OverlayState::Plain, EvKind::StartCode) => OverlayState::InCodeBlock,
        (OverlayState::InMetadata, EvKind::EndMetadata) => OverlayState::Plain,
        (OverlayState::InCodeBlock, EvKind::EndCode) => OverlayState::Plain,
        _ => st,
    }
}

/// The state after one coalesced event: only non-text events move it.
pub open spec fn state_after(st: OverlayState, item: CoalItem) -> OverlayState {
    match item {
        CoalItem::NonText { idx: _, kind } => step_state(st, kind),
        CoalItem::Text { span: _ } => st,
    }
}

/// A text span the wikilink parser may be pointed at: a well-formed byte
/// range of the source.
pub open spec fn scannable(span: Span, s: Seq<u8>) -> bool {
    span.start <= span.end && span.end <= s.len()
}

/// The wikilink parser's output for one text span, as overlay output items.
pub open spec fn wiki_out(s: Seq<u8>, span: Span) -> Seq<OutItem> {
    wiki_items_from(lex(s, span.start as int, span.end as int), 0).map(
        |k: int, it: WikiItem| out_of_wiki(it),
    )
}

/// Re-tags a wikilink parser item as an overlay output item.
pub open spec fn out_of_wiki(it: WikiItem) -> OutItem {
    match it {
        WikiItem::Text { span } => OutItem::Text { span },
        WikiItem::LinkStart { span, url } => OutItem::LinkStart { span, url },
        WikiItem::LinkEnd { span } => OutItem::LinkEnd { span },
    }
}

/// What the overlay emits for one coalesced event: a non-text event passes
/// through; a text span is scanned for wikilinks only in the plain state
/// (and only if its range is a sane slice of the source), and is otherwise
/// re-emitted untouched.
pub open spec fn overlay_out(s: Seq<u8>, st: OverlayState, item: CoalItem) -> Seq<OutItem> {
    match item {
        CoalItem::NonText { idx, kind: _ } => seq![OutItem::Base { idx }],
        CoalItem::Text { span } => if st == OverlayState::Plain && scannable(span, s) {
            wiki_out(s, span)
        } else {
            seq![OutItem::Text { span }]
        },
    }
}

/// The overlay's whole output over the coalesced events from `i` on,
/// starting in state `st`.
pub open spec fn overlay_from(
    s: Seq<u8>,
    items: Seq<CoalItem>,
    i: int,
    st: OverlayState,
) -> Seq<OutItem>
    decreases items.len() - i,
{
    if i >= items.len() {
        Seq::empty()
    } else {
        overlay_out(s, st, items[i]) + overlay_from(s, items, i + 1, state_after(st, items[i]))
    }
}

/// The coalesced stream unchanged, as output items: what the overlay yields
/// when wikilink scanning is disabled.
pub open spec fn passthrough(items: Seq<CoalItem>) -> Seq<OutItem> {
    items.map(
        |k: int, it: CoalItem|
            match it {
                CoalItem::NonText { idx, kind: _ } => OutItem::Base { idx },
                CoalItem::Text { span } => OutItem::Text { span },
            },
    )
}

/// Runs the overlay over a whole coalesced stream: with `wikilinks` set,
/// the state machine routes plain-state text spans through the wikilink
/// parser; without it, the coalesced stream is reproduced as is.
pub fn overlay(src: &[u8], items: &Vec<CoalItem>, wikilinks: bool) -> (out: Vec<OutItem>)
    ensures
        wikilinks ==> out@ == overlay_from(src@, items@, 0, OverlayState::Plain),
        !wikilinks ==> out@ == passthrough(items@),
{
    let n = items.len();
    let mut out: Vec<OutItem> = Vec::new();
    let mut pos: usize = 0;
    if !wikilinks {
        while pos < n
            invariant
                pos <= n == items@.len(),
                out@ == passthrough(items@).take(pos as int),
            decreases n - pos,
        {
            match items[pos] {
                CoalItem::NonText { idx, kind: _ } => out.push(OutItem::Base { idx }),
                CoalItem::Text { span } => out.push(OutItem::Text { span }),
            }
            pos = pos + 1;
            proof {
                assert(out@ =~= passthrough(items@).take(pos as int));
            }
        }
        proof {
            assert(out@ =~= passthrough(items@));
        }
        return out;
    }
    let mut st = OverlayState::Plain;
    while pos < n
        invariant
            pos <= n == items@.len(),
            overlay_from(src@, items@, 0, OverlayState::Plain) == out@ + overlay_from(
                src@,
                items@,
                pos as int,
                st,
            ),
        decreases n - pos,
    {
        let ghost i = pos as int;
        let ghost st0 = st;
        match items[pos] {
            CoalItem::NonText { idx, kind } => {
                out.push(OutItem::Base { idx });
                st = match (st, kind) {
                    (OverlayState::Plain, EvKind::StartMetadata) => OverlayState::InMetadata,
                    (OverlayState::Plain, EvKind::StartCode) => OverlayState::InCodeBlock,
                    (OverlayState::InMetadata, EvKind::EndMetadata) => OverlayState::Plain,
                    (OverlayState::InCodeBlock, EvKind::EndCode) => OverlayState::Plain,
                    _ => st,
                };
            },
            CoalItem::Text { span } => {
                if st == OverlayState::Plain && span.start <= span.end && span.end <= src.len() {
                    let toks = tokenize(src, span.start, span.end);
                    let wiki_items = wiki_scan(&toks);
                    let ghost old_out = out@;
                    proof {
                        assert(out@ =~= old_out + wiki_out(src@, span).take(0));
                    }
                    let mut k: usize = 0;
                    while k < wiki_items.len()
                        invariant
                            k <= wiki_items@.len(),
                            wiki_items@ == wiki_items_from(
                                lex(src@, span.start as int, span.end as int),
                                0,
                            ),
                            out@ == old_out + wiki_out(src@, span).take(k as int),
                        decreases wiki_items@.len() - k,
                    {
                        match wiki_items[k] {
                            WikiItem::Text { span } => out.push(OutItem::Text { span }),
                            WikiItem::LinkStart { span, url } => out.push(
                                OutItem::LinkStart { span, url },
                            ),
                            WikiItem::LinkEnd { span } => out.push(OutItem::LinkEnd { span }),
                        }
                        k = k + 1;
                        proof {
                            assert(out@ =~= old_out + wiki_out(src@, span).take(k as int));
                        }
                    }
                    proof {
                        assert(out@ =~= old_out + wiki_out(src@, span));
                    }
                } else {
                    out.push(OutItem::Text { span });
                }
            },
        }
        proof {
            assert(overlay_from(src@, items@, 0, OverlayState::Plain) =~= out@ + overlay_from(
                src@,
                items@,
                pos as int + 1,
                state_after(st0, items@[i]),
            ));
        }
        pos = pos + 1;
    }
    out
}

/// Every base index in the coalesced stream lies under `bound`.
pub open spec fn coal_idx_under(items: Seq<CoalItem>, bound: int) -> bool {
    forall|m: int|
        0 <= m < items.len() ==> ((#[trigger] items[m]) matches CoalItem::NonText { idx, kind }
            ==> idx < bound)
}

/// Every base index in an output stream lies under `bound`.
pub open spec fn out_idx_under(out: Seq<OutItem>, bound: int) -> bool {
    forall|m: int|
        0 <= m < out.len() ==> ((#[trigger] out[m]) matches OutItem::Base { idx } ==> idx < bound)
}

/// The overlay invents no base index: whatever bound holds of the coalesced
/// stream's indices holds of its output's.
pub proof fn lemma_overlay_idx_bounded(
    s: Seq<u8>,
    items: Seq<CoalItem>,
    i: int,
    st: OverlayState,
    bound: int,
)
    requires
        0 <= i <= items.len(),
        coal_idx_under(items, bound),
    ensures
        out_idx_under(overlay_from(s, items, i, st), bound),
    decreases items.len() - i,
{
    if i < items.len() {
        lemma_overlay_idx_bounded(s, items, i + 1, state_after(st, items[i]), bound);
        let head = overlay_out(s, st, items[i]);
        let rest = overlay_from(s, items, i + 1, state_after(st, items[i]));
        let c = overlay_from(s, items, i, st);
        assert forall|m: int|
            0 <= m < c.len() implies ((#[trigger] c[m]) matches OutItem::Base { idx } ==> idx
            < bound) by {
            if m >= head.len() {
                assert(c[m] == rest[m - head.len()]);
            } else {
                assert(c[m] == head[m]);
                match items[i] {
                    CoalItem::NonText { idx, kind } => {
                        assert(items[i] matches CoalItem::NonText { idx: idx2, kind: k2 } ==> idx2
                            < bound);
                    },
                    CoalItem::Text { span } => {
                        assert(forall|q: int|
                            0 <= q < wiki_out(s, span).len() ==> !((#[trigger] wiki_out(s, span)[q])
                                matches OutItem::Base { idx }));
                    },
                }
            }
        }
    }
}

/// A text span observed inside a metadata or code region is re-emitted
/// untouched: no link event is ever synthesized from it, and the state does
/// not move.
pub proof fn lemma_opaque_text_unscanned(s: Seq<u8>, st: OverlayState, span: Span)
    requires
        st != OverlayState::Plain,
    ensures
        overlay_out(s, st, CoalItem::Text { span }) == seq![OutItem::Text { span }],
        state_after(st, CoalItem::Text { span }) == st,
{
}

/// The matching end event of an open region returns the state to plain —
/// and only the matching one: any other end observed inside a region leaves
/// it open.
pub proof fn lemma_region_closes()
    ensures
        step_state(OverlayState::InMetadata, EvKind::EndMetadata) == OverlayState::Plain,
        step_state(OverlayState::InCodeBlock, EvKind::EndCode) == OverlayState::Plain,
        step_state(OverlayState::InMetadata, EvKind::EndCode) == OverlayState::InMetadata,
        step_state(OverlayState::InCodeBlock, EvKind::EndMetadata) == OverlayState::InCodeBlock,
{
}

/// A text span that follows the end of an open metadata or code region is
/// scanned for wikilinks again: the region's end event passes through, and
/// the span right after it goes through the wikilink parser.
pub proof fn lemma_scan_resumes(
    s: Seq<u8>,
    items: Seq<CoalItem>,
    i: int,
    st: OverlayState,
    idx: usize,
    span: Span,
)
    requires
        0 <= i,
        i + 1 < items.len(),
        ((st == OverlayState::InCodeBlock && items[i] == (CoalItem::NonText {
            idx,
            kind: EvKind::EndCode,
        })) || (st == OverlayState::InMetadata && items[i] == (CoalItem::NonText {
            idx,
            kind: EvKind::EndMetadata,
        }))),
        items[i + 1] == (CoalItem::Text { span }),
        scannable(span, s),
    ensures
        overlay_from(s, items, i, st) == seq![OutItem::Base { idx }] + wiki_out(s, span)
            + overlay_from(s, items, i + 2, OverlayState::Plain),
{
    let st1 = state_after(st, items[i]);
    assert(st1 == OverlayState::Plain);
    assert(overlay_out(s, st, items[i]) =~= seq![OutItem::Base { idx }]);
    assert(overlay_out(s, OverlayState::Plain, items[i + 1]) == wiki_out(s, span));
    assert(state_after(OverlayState::Plain, items[i + 1]) == OverlayState::Plain);
    assert(overlay_from(s, items, i, st) == overlay_out(s, st, items[i]) + overlay_from(
        s,
        items,
        i + 1,
        OverlayState::Plain,
    ));
    assert(overlay_from(s, items, i + 1, OverlayState::Plain) == wiki_out(s, span) + overlay_from(
        s,
        items,
        i + 2,
        OverlayState::Plain,
    ));
    assert(overlay_from(s, items, i, st) =~= seq![OutItem::Base { idx }] + wiki_out(s, span)
        + overlay_from(s, items, i + 2, OverlayState::Plain));
}

/// With wikilink scanning disabled the stream is exactly the coalesced base
/// stream: no link event is synthesized, and no text event is empty.
#[verifier::rlimit(60)]
pub proof fn lemma_disabled_is_coalesced(evs: Seq<BaseRec>)
    requires
        base_spans_ordered(evs),
    ensures
        ({
            let out = passthrough(coalesce_from(evs, 0));
            forall|m: int|
                0 <= m < out.len() ==> (!((#[trigger] out[m]) matches OutItem::LinkStart {
                    span,
                    url,
                }) && !(out[m] matches OutItem::LinkEnd { span }) && (out[m]
                    matches OutItem::Text { span } ==> span.start < span.end))
        }),
{
    lemma_coalesce_no_empty_text(evs, 0);
    let items = coalesce_from(evs, 0);
    let out = passthrough(items);
    assert forall|m: int|
        0 <= m < out.len() implies (!((#[trigger] out[m]) matches OutItem::LinkStart { span, url })
        && !(out[m] matches OutItem::LinkEnd { span }) && (out[m] matches OutItem::Text { span }
        ==> span.start < span.end)) by {
        assert(items[m] matches CoalItem::Text { span } ==> span.start < span.end);
    }
}

/// Passing the coalesced stream through invents no base index either.
pub proof fn lemma_passthrough_idx_bounded(items: Seq<CoalItem>, bound: int)
    requires
        coal_idx_under(items, bound),
    ensures
        out_idx_under(passthrough(items), bound),
{
}

} // verus!
