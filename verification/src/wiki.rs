use vstd::prelude::*;

use crate::span::Span;
use crate::token::{lemma_lex_linked, lex, newline_tokens_cover_newlines, tokens_linked, Token,
    BYTE_NEWLINE};

verus! {

/// One unit of a wikilink parser's output, as a byte span of the source.
///
/// A successful parse of `[[target]]` or `[[target|alias]]` yields the triple
/// `LinkStart`, `Text`, `LinkEnd`: the two link markers share the outer span
/// of the whole construct, `url` is the target field, and the `Text` between
/// them carries the target (or alias) span. A `Text` outside such a triple is
/// literal text re-emitted from the source.
#[derive(Clone, Copy, PartialEq, Eq, Structural, Debug)]
pub enum WikiItem {
    Text { span: Span },
    LinkStart { span: Span, url: Span },
    LinkEnd { span: Span },
}

/// The byte range an item is emitted with: a link marker's outer span, or
/// a text item's own span.
pub open spec fn item_span(it: WikiItem) -> Span {
    match it {
        WikiItem::Text { span } => span,
        WikiItem::LinkStart { span, url: _ } => span,
        WikiItem::LinkEnd { span } => span,
    }
}

/// The index of the first token at or after `i` that ends a field scan: a
/// `]]`, or a `|` as well when `stop_pipe` holds. `toks.len()` if none does.
pub open spec fn field_stop(toks: Seq<(Token, Span)>, i: int, stop_pipe: bool) -> int
    decreases toks.len() - i,
{
    if i >= toks.len() {
        toks.len() as int
    } else if toks[i].0 == Token::CloseBracket || (stop_pipe && toks[i].0 == Token::Pipe) {
        i
    } else {
        field_stop(toks, i + 1, stop_pipe)
    }
}

pub proof fn lemma_field_stop_bounds(toks: Seq<(Token, Span)>, i: int, stop_pipe: bool)
    requires
        0 <= i <= toks.len(),
    ensures
        i <= field_stop(toks, i, stop_pipe) <= toks.len(),
    decreases toks.len() - i,
{
    if i < toks.len() && !(toks[i].0 == Token::CloseBracket || (stop_pipe && toks[i].0
        == Token::Pipe)) {
        lemma_field_stop_bounds(toks, i + 1, stop_pipe);
    }
}

/// The index of the first token at or after `i` that opens a wikilink;
/// `toks.len()` if none does.
pub open spec fn text_stop(toks: Seq<(Token, Span)>, i: int) -> int
    decreases toks.len() - i,
{
    if i >= toks.len() {
        toks.len() as int
    } else if toks[i].0 == Token::OpenBracket {
        i
    } else {
        text_stop(toks, i + 1)
    }
}

pub proof fn lemma_text_stop_bounds(toks: Seq<(Token, Span)>, i: int)
    requires
        0 <= i <= toks.len(),
    ensures
        i <= text_stop(toks, i) <= toks.len(),
    decreases toks.len() - i,
{
    if i < toks.len() && toks[i].0 != Token::OpenBracket {
        lemma_text_stop_bounds(toks, i + 1);
    }
}

/// `field_stop` finds the first stop token: nothing before it stops the
/// scan, and it stops the scan itself unless the tokens ran out.
pub proof fn lemma_field_stop_spec(toks: Seq<(Token, Span)>, i: int, stop_pipe: bool)
    requires
        0 <= i <= toks.len(),
    ensures
        i <= field_stop(toks, i, stop_pipe) <= toks.len(),
        forall|k: int|
            i <= k < field_stop(toks, i, stop_pipe) ==> !((#[trigger] toks[k]).0
                == Token::CloseBracket || (stop_pipe && toks[k].0 == Token::Pipe)),
        field_stop(toks, i, stop_pipe) < toks.len() ==> (toks[field_stop(toks, i, stop_pipe)].0
            == Token::CloseBracket || (stop_pipe && toks[field_stop(toks, i, stop_pipe)].0
            == Token::Pipe)),
    decreases toks.len() - i,
{
    if i < toks.len() && !(toks[i].0 == Token::CloseBracket || (stop_pipe && toks[i].0
        == Token::Pipe)) {
        lemma_field_stop_spec(toks, i + 1, stop_pipe);
    }
}

/// The span of a field scanned over the tokens `[i, j)`: anchored at the
/// start of token `i`, empty when the scan consumed nothing.
pub open spec fn field_span(toks: Seq<(Token, Span)>, i: int, j: int) -> Span {
    if j == i {
        Span { start: toks[i].1.start, end: toks[i].1.start }
    } else {
        Span { start: toks[i].1.start, end: toks[j - 1].1.end }
    }
}

/// The span a failed wikilink attempt re-emits as literal text: from the
/// opening `[[` at token `i` through everything the attempt scanned, which
/// on failure is every remaining token.
pub open spec fn fail_span(toks: Seq<(Token, Span)>, i: int) -> Span {
    Span { start: toks[i].1.start, end: toks[toks.len() - 1].1.end }
}

/// The wikilink parser's whole output over the tokens from `i` on: leading
/// line breaks are skipped; an `[[` starts a wikilink attempt, which emits a
/// three-item link triple on success and one literal `Text` covering the
/// whole attempt on failure; any other token starts a literal text run that
/// extends to the next `[[`.
pub open spec fn wiki_items_from(toks: Seq<(Token, Span)>, i: int) -> Seq<WikiItem>
    decreases toks.len() - i,
    when 0 <= i
    via wiki_items_decreases
{
    let n = toks.len() as int;
    if i >= n {
        Seq::empty()
    } else if toks[i].0 == Token::NewLine {
        wiki_items_from(toks, i + 1)
    } else if toks[i].0 == Token::OpenBracket {
        let j1 = field_stop(toks, i + 1, true);
        if j1 >= n {
            seq![WikiItem::Text { span: fail_span(toks, i) }]
        } else if toks[j1].0 == Token::CloseBracket {
            let url = field_span(toks, i + 1, j1);
            let outer = Span { start: toks[i].1.start, end: toks[j1].1.end };
            seq![
                WikiItem::LinkStart { span: outer, url },
                WikiItem::Text { span: url },
                WikiItem::LinkEnd { span: outer },
            ] + wiki_items_from(toks, j1 + 1)
        } else {
            let url = field_span(toks, i + 1, j1);
            let j2 = field_stop(toks, j1 + 1, false);
            if j2 >= n {
                seq![WikiItem::Text { span: fail_span(toks, i) }]
            } else {
                let alias = field_span(toks, j1 + 1, j2);
                let outer = Span { start: toks[i].1.start, end: toks[j2].1.end };
                seq![
                    WikiItem::LinkStart { span: outer, url },
                    WikiItem::Text { span: alias },
                    WikiItem::LinkEnd { span: outer },
                ] + wiki_items_from(toks, j2 + 1)
            }
        }
    } else {
        let j = text_stop(toks, i + 1);
        seq![WikiItem::Text { span: Span { start: toks[i].1.start, end: toks[j - 1].1.end } }]
            + wiki_items_from(toks, j)
    }
}

#[via_fn]
proof fn wiki_items_decreases(toks: Seq<(Token, Span)>, i: int) {
    let n = toks.len() as int;
    if i < n {
        if toks[i].0 == Token::OpenBracket {
            lemma_field_stop_bounds(toks, i + 1, true);
            let j1 = field_stop(toks, i + 1, true);
            if j1 < n && toks[j1].0 != Token::CloseBracket {
                lemma_field_stop_bounds(toks, j1 + 1, false);
            }
        } else if toks[i].0 != Token::NewLine {
            lemma_text_stop_bounds(toks, i + 1);
        }
    }
}

/// The byte range a parse failure re-emits verbatim: nothing yet, or a span
/// that only ever grows leftward as enclosing attempts are abandoned.
pub enum ParseError {
    Empty,
    ReParse(Span),
}

impl ParseError {
    /// Extends the failure leftward: the result spans from the start of `r`
    /// to the failure's own end, or to the end of `r` if nothing had failed
    /// yet.
    pub fn extend_before(self, r: Span) -> (e: ParseError)
        ensures
            e == match self {
                ParseError::Empty => ParseError::ReParse(r),
                ParseError::ReParse(r2) => ParseError::ReParse(
                    Span { start: r.start, end: r2.end },
                ),
            },
    {
        match self {
            ParseError::Empty => ParseError::ReParse(r),
            ParseError::ReParse(r2) => ParseError::ReParse(Span { start: r.start, end: r2.end }),
        }
    }
}

/// Scans one field of a wikilink: consumes tokens up to, but not including,
/// the first `]]` (or `|`, when `stop_pipe` holds). Fails with `Empty` when
/// no token is left to anchor the field, and with `ReParse` over everything
/// scanned when the tokens run out before a terminator.
fn scan_field(toks: &Vec<(Token, Span)>, pos: &mut usize, stop_pipe: bool) -> (r: Result<
    Span,
    ParseError,
>)
    requires
        *old(pos) <= toks@.len(),
    ensures
        ({
            let i = *old(pos) as int;
            let n = toks@.len() as int;
            let j = field_stop(toks@, i, stop_pipe);
            &&& (i == n ==> r == Err::<Span, ParseError>(ParseError::Empty) && *final(pos) == *old(pos))
            &&& (i < n && j < n ==> r == Ok::<Span, ParseError>(field_span(toks@, i, j)) && *final(pos)
                == j)
            &&& (i < n && j == n ==> r == Err::<Span, ParseError>(
                ParseError::ReParse(Span { start: toks@[i].1.start, end: toks@[n - 1].1.end }),
            ) && *final(pos) == n)
        }),
{
    proof {
        lemma_field_stop_bounds(toks@, *old(pos) as int, stop_pipe);
    }
    let n = toks.len();
    let i = *pos;
    if i >= n {
        return Err(ParseError::Empty);
    }
    let start: usize = toks[i].1.start;
    let mut end: usize = start;
    let mut p: usize = i;
    while p < n && !(toks[p].0 == Token::CloseBracket || (stop_pipe && toks[p].0 == Token::Pipe))
        invariant
            i <= p <= n == toks@.len(),
            field_stop(toks@, i as int, stop_pipe) == field_stop(toks@, p as int, stop_pipe),
            start == toks@[i as int].1.start,
            end == field_span(toks@, i as int, p as int).end,
        decreases n - p,
    {
        end = toks[p].1.end;
        p = p + 1;
    }
    *pos = p;
    if p < n {
        Ok(Span { start, end })
    } else {
        Err(ParseError::ReParse(Span { start, end }))
    }
}

/// In `[[url|alias]]` with the `[[` already consumed, scans `url`, leaving
/// the `|` or `]]` unconsumed.
fn parse_wikilink_first_field(toks: &Vec<(Token, Span)>, pos: &mut usize) -> (r: Result<
    Span,
    ParseError,
>)
    requires
        *old(pos) <= toks@.len(),
    ensures
        ({
            let i = *old(pos) as int;
            let n = toks@.len() as int;
            let j = field_stop(toks@, i, true);
            &&& (i == n ==> r == Err::<Span, ParseError>(ParseError::Empty) && *final(pos) == *old(pos))
            &&& (i < n && j < n ==> r == Ok::<Span, ParseError>(field_span(toks@, i, j)) && *final(pos)
                == j)
            &&& (i < n && j == n ==> r == Err::<Span, ParseError>(
                ParseError::ReParse(Span { start: toks@[i].1.start, end: toks@[n - 1].1.end }),
            ) && *final(pos) == n)
        }),
{
    scan_field(toks, pos, true)
}

/// In `alias]]` with the `|` already consumed, scans `alias`, stopping only
/// at a `]]`: a further `|` is ordinary alias content.
fn parse_wikilink_alias(toks: &Vec<(Token, Span)>, pos: &mut usize) -> (r: Result<
    Span,
    ParseError,
>)
    requires
        *old(pos) <= toks@.len(),
    ensures
        ({
            let i = *old(pos) as int;
            let n = toks@.len() as int;
            let j = field_stop(toks@, i, false);
            &&& (i == n ==> r == Err::<Span, ParseError>(ParseError::Empty) && *final(pos) == *old(pos))
            &&& (i < n && j < n ==> r == Ok::<Span, ParseError>(field_span(toks@, i, j)) && *final(pos)
                == j)
            &&& (i < n && j == n ==> r == Err::<Span, ParseError>(
                ParseError::ReParse(Span { start: toks@[i].1.start, end: toks@[n - 1].1.end }),
            ) && *final(pos) == n)
        }),
{
    scan_field(toks, pos, false)
}

/// For every well-formed `[[target]]` — an `[[`, then target tokens none of
/// which is a `|` or `]]`, then the closing `]]` — the parse is exactly the
/// link triple: `LinkStart`, the target as its text, `LinkEnd`, the three
/// sharing the outer span of the whole `[[target]]`.
pub proof fn lemma_wikilink_no_alias(toks: Seq<(Token, Span)>)
    requires
        toks.len() >= 2,
        toks[0].0 == Token::OpenBracket,
        toks[toks.len() - 1].0 == Token::CloseBracket,
        forall|k: int|
            0 < k < toks.len() - 1 ==> (#[trigger] toks[k]).0 != Token::Pipe && toks[k].0
                != Token::CloseBracket,
    ensures
        ({
            let n = toks.len() as int;
            let url = field_span(toks, 1, n - 1);
            let outer = Span { start: toks[0].1.start, end: toks[n - 1].1.end };
            wiki_items_from(toks, 0) == seq![
                WikiItem::LinkStart { span: outer, url },
                WikiItem::Text { span: url },
                WikiItem::LinkEnd { span: outer },
            ]
        }),
{
    let n = toks.len() as int;
    lemma_field_stop_spec(toks, 1, true);
    assert(field_stop(toks, 1, true) == n - 1);
    assert(wiki_items_from(toks, n) =~= Seq::<WikiItem>::empty());
    let url = field_span(toks, 1, n - 1);
    let outer = Span { start: toks[0].1.start, end: toks[n - 1].1.end };
    assert(wiki_items_from(toks, 0) =~= seq![
        WikiItem::LinkStart { span: outer, url },
        WikiItem::Text { span: url },
        WikiItem::LinkEnd { span: outer },
    ]);
}

/// For every well-formed `[[target|alias]]` — the target free of `|` and
/// `]]`, the alias free of `]]` but free to contain further `|` characters —
/// the parse is exactly the link triple, with the alias as its text and the
/// outer span of the whole construct on both link markers. Only the first
/// `|` after the target is structural.
pub proof fn lemma_wikilink_alias(toks: Seq<(Token, Span)>, p: int)
    requires
        toks.len() >= 3,
        0 < p < toks.len() - 1,
        toks[0].0 == Token::OpenBracket,
        toks[p].0 == Token::Pipe,
        toks[toks.len() - 1].0 == Token::CloseBracket,
        forall|k: int|
            0 < k < p ==> (#[trigger] toks[k]).0 != Token::Pipe && toks[k].0
                != Token::CloseBracket,
        forall|k: int| p < k < toks.len() - 1 ==> (#[trigger] toks[k]).0 != Token::CloseBracket,
    ensures
        ({
            let n = toks.len() as int;
            let url = field_span(toks, 1, p);
            let alias = field_span(toks, p + 1, n - 1);
            let outer = Span { start: toks[0].1.start, end: toks[n - 1].1.end };
            wiki_items_from(toks, 0) == seq![
                WikiItem::LinkStart { span: outer, url },
                WikiItem::Text { span: alias },
                WikiItem::LinkEnd { span: outer },
            ]
        }),
{
    let n = toks.len() as int;
    lemma_field_stop_spec(toks, 1, true);
    assert(field_stop(toks, 1, true) == p);
    lemma_field_stop_spec(toks, p + 1, false);
    assert(field_stop(toks, p + 1, false) == n - 1);
    assert(wiki_items_from(toks, n) =~= Seq::<WikiItem>::empty());
    let url = field_span(toks, 1, p);
    let alias = field_span(toks, p + 1, n - 1);
    let outer = Span { start: toks[0].1.start, end: toks[n - 1].1.end };
    assert(wiki_items_from(toks, 0) =~= seq![
        WikiItem::LinkStart { span: outer, url },
        WikiItem::Text { span: alias },
        WikiItem::LinkEnd { span: outer },
    ]);
}

/// For every well-formed `[[target]]` standing as the bytes `s[lo .. hi]` —
/// the target free of brackets, pipes and line breaks — lexing and parsing
/// the span yields exactly the link triple: `LinkStart`, the target as its
/// text, `LinkEnd`, all three with the outer range `[lo, hi)` of the whole
/// `[[target]]` and the target's own range on its text.
pub proof fn lemma_wikilink_no_alias_bytes(s: Seq<u8>, lo: int, hi: int)
    requires
        0 <= lo,
        lo + 4 <= hi <= s.len(),
        hi <= usize::MAX,
        s[lo] == crate::token::BYTE_LBRACK && s[lo + 1] == crate::token::BYTE_LBRACK,
        s[hi - 2] == crate::token::BYTE_RBRACK && s[hi - 1] == crate::token::BYTE_RBRACK,
        forall|q: int|
            lo + 2 <= q < hi - 2 ==> s[q] != crate::token::BYTE_LBRACK && s[q]
                != crate::token::BYTE_RBRACK && s[q] != crate::token::BYTE_PIPE && s[q]
                != crate::token::BYTE_NEWLINE,
    ensures
        wiki_items_from(lex(s, lo, hi), 0) == seq![
            WikiItem::LinkStart {
                span: crate::span::span_at(lo, hi),
                url: crate::span::span_at(lo + 2, hi - 2),
            },
            WikiItem::Text { span: crate::span::span_at(lo + 2, hi - 2) },
            WikiItem::LinkEnd { span: crate::span::span_at(lo, hi) },
        ],
{
    reveal_with_fuel(lex, 4);
    let toks = lex(s, lo, hi);
    assert(crate::token::starts_open(s, lo, hi));
    if lo + 2 == hi - 2 {
        assert(crate::token::starts_close(s, lo + 2, hi));
        assert(lex(s, hi, hi) =~= Seq::<(Token, Span)>::empty());
        assert(toks =~= seq![
            (Token::OpenBracket, crate::span::span_at(lo, lo + 2)),
            (Token::CloseBracket, crate::span::span_at(lo + 2, hi)),
        ]);
        lemma_wikilink_no_alias(toks);
    } else {
        assert(!crate::token::delim_at(s, lo + 2, hi));
        crate::token::lemma_other_end_spec(s, lo + 3, hi);
        assert(crate::token::delim_at(s, hi - 2, hi));
        assert(crate::token::other_end(s, lo + 3, hi) == hi - 2);
        assert(crate::token::starts_close(s, hi - 2, hi));
        assert(lex(s, hi, hi) =~= Seq::<(Token, Span)>::empty());
        assert(toks =~= seq![
            (Token::OpenBracket, crate::span::span_at(lo, lo + 2)),
            (Token::Other, crate::span::span_at(lo + 2, hi - 2)),
            (Token::CloseBracket, crate::span::span_at(hi - 2, hi)),
        ]);
        lemma_wikilink_no_alias(toks);
    }
}

/// Every item list the parser can produce keeps its link triples complete.
pub open spec fn triples_complete(items: Seq<WikiItem>) -> bool {
    forall|m: int|
        0 <= m < items.len() ==> ((#[trigger] items[m]) matches WikiItem::LinkStart { span, url }
            ==> m + 2 < items.len() && (items[m + 1] matches WikiItem::Text { span: inner })
            && items[m + 2] == (WikiItem::LinkEnd { span }))
}

/// For every `Start` of a link the parser emits, there is exactly one
/// matching `End`: it stands two items later, with the identical outer
/// span, and the link's text stands between them.
pub proof fn lemma_link_triples(toks: Seq<(Token, Span)>, i: int)
    requires
        0 <= i <= toks.len(),
    ensures
        triples_complete(wiki_items_from(toks, i)),
    decreases toks.len() - i,
{
    let n = toks.len() as int;
    let items = wiki_items_from(toks, i);
    if i >= n {
    } else if toks[i].0 == Token::NewLine {
        lemma_link_triples(toks, i + 1);
    } else if toks[i].0 == Token::OpenBracket {
        let j1 = field_stop(toks, i + 1, true);
        lemma_field_stop_bounds(toks, i + 1, true);
        if j1 >= n {
        } else if toks[j1].0 == Token::CloseBracket {
            lemma_link_triples(toks, j1 + 1);
            let rest = wiki_items_from(toks, j1 + 1);
            assert forall|m: int|
                0 <= m < items.len() implies ((#[trigger] items[m])
                matches WikiItem::LinkStart { span, url } ==> m + 2 < items.len() && (items[m + 1]
                matches WikiItem::Text { span: inner }) && items[m + 2] == (WikiItem::LinkEnd {
                span,
            })) by {
                if m >= 3 {
                    assert(items[m] == rest[m - 3]);
                    if m + 1 < items.len() {
                        assert(items[m + 1] == rest[m - 2]);
                    }
                    if m + 2 < items.len() {
                        assert(items[m + 2] == rest[m - 1]);
                    }
                }
            }
        } else {
            let j2 = field_stop(toks, j1 + 1, false);
            lemma_field_stop_bounds(toks, j1 + 1, false);
            if j2 >= n {
            } else {
                lemma_link_triples(toks, j2 + 1);
                let rest = wiki_items_from(toks, j2 + 1);
                assert forall|m: int|
                    0 <= m < items.len() implies ((#[trigger] items[m])
                    matches WikiItem::LinkStart { span, url } ==> m + 2 < items.len() && (items[m
                    + 1] matches WikiItem::Text { span: inner }) && items[m + 2]
                    == (WikiItem::LinkEnd { span })) by {
                    if m >= 3 {
                        assert(items[m] == rest[m - 3]);
                        if m + 1 < items.len() {
                            assert(items[m + 1] == rest[m - 2]);
                        }
                        if m + 2 < items.len() {
                            assert(items[m + 2] == rest[m - 1]);
                        }
                    }
                }
            }
        }
    } else {
        let j = text_stop(toks, i + 1);
        lemma_text_stop_bounds(toks, i + 1);
        lemma_link_triples(toks, j);
        let rest = wiki_items_from(toks, j);
        assert forall|m: int|
            0 <= m < items.len() implies ((#[trigger] items[m])
            matches WikiItem::LinkStart { span, url } ==> m + 2 < items.len() && (items[m + 1]
            matches WikiItem::Text { span: inner }) && items[m + 2] == (WikiItem::LinkEnd {
            span,
        })) by {
            if m >= 1 {
                assert(items[m] == rest[m - 1]);
                if m + 1 < items.len() {
                    assert(items[m + 1] == rest[m]);
                }
                if m + 2 < items.len() {
                    assert(items[m + 2] == rest[m + 1]);
                }
            }
        }
    }
}

/// Parses an entire wikilink with the cursor on the opening `[[`: one of
/// `[[target]]` or `[[target|alias]]`. On success the cursor rests past the
/// closing `]]` and the result is the three-item link triple; on failure the
/// cursor has consumed every remaining token and the error covers the whole
/// attempt, from the `[[` on.
fn parse_wikilink(toks: &Vec<(Token, Span)>, pos: &mut usize) -> (r: Result<
    Vec<WikiItem>,
    ParseError,
>)
    requires
        *old(pos) < toks@.len(),
        toks@[*old(pos) as int].0 == Token::OpenBracket,
    ensures
        ({
            let i = *old(pos) as int;
            let n = toks@.len() as int;
            let j1 = field_stop(toks@, i + 1, true);
            let j2 = field_stop(toks@, j1 + 1, false);
            &&& (j1 == n ==> r == Err::<Vec<WikiItem>, ParseError>(
                ParseError::ReParse(fail_span(toks@, i)),
            ) && *final(pos) == n)
            &&& (j1 < n && toks@[j1].0 == Token::CloseBracket ==> {
                let url = field_span(toks@, i + 1, j1);
                let outer = Span { start: toks@[i].1.start, end: toks@[j1].1.end };
                &&& r matches Ok(v)
                &&& r->Ok_0@ == seq![
                    WikiItem::LinkStart { span: outer, url },
                    WikiItem::Text { span: url },
                    WikiItem::LinkEnd { span: outer },
                ]
                &&& *final(pos) == j1 + 1
            })
            &&& (j1 < n && toks@[j1].0 == Token::Pipe && j2 == n ==> r == Err::<
                Vec<WikiItem>,
                ParseError,
            >(ParseError::ReParse(fail_span(toks@, i))) && *final(pos) == n)
            &&& (j1 < n && toks@[j1].0 == Token::Pipe && j2 < n ==> {
                let url = field_span(toks@, i + 1, j1);
                let alias = field_span(toks@, j1 + 1, j2);
                let outer = Span { start: toks@[i].1.start, end: toks@[j2].1.end };
                &&& r matches Ok(v)
                &&& r->Ok_0@ == seq![
                    WikiItem::LinkStart { span: outer, url },
                    WikiItem::Text { span: alias },
                    WikiItem::LinkEnd { span: outer },
                ]
                &&& *final(pos) == j2 + 1
            })
        }),
{
    // binds the token count so the cursor arithmetic below is known to fit
    let _token_count = toks.len();
    let ghost i0 = *old(pos) as int;
    let ghost n = toks@.len() as int;
    let ghost j1 = field_stop(toks@, i0 + 1, true);
    proof {
        lemma_field_stop_spec(toks@, i0 + 1, true);
    }
    let tag_pos: Span = toks[*pos].1;
    *pos = *pos + 1;
    let url = match parse_wikilink_first_field(toks, pos) {
        Ok(u) => u,
        Err(e) => {
            return Err(e.extend_before(tag_pos));
        },
    };
    proof {
        assert(j1 < n && *pos == j1);
    }
    let stop = toks[*pos].0;
    let stop_span = toks[*pos].1;
    *pos = *pos + 1;
    if stop == Token::CloseBracket {
        let outer = Span { start: tag_pos.start, end: stop_span.end };
        let mut v: Vec<WikiItem> = Vec::new();
        v.push(WikiItem::LinkStart { span: outer, url });
        v.push(WikiItem::Text { span: url });
        v.push(WikiItem::LinkEnd { span: outer });
        Ok(v)
    } else {
        let ghost j2 = field_stop(toks@, j1 + 1, false);
        proof {
            lemma_field_stop_spec(toks@, j1 + 1, false);
        }
        let alias = match parse_wikilink_alias(toks, pos) {
            Ok(a) => a,
            Err(e) => {
                return Err(e.extend_before(Span { start: tag_pos.start, end: stop_span.end }));
            },
        };
        proof {
            assert(j2 < n && *pos == j2);
        }
        let close_span = toks[*pos].1;
        *pos = *pos + 1;
        let outer = Span { start: tag_pos.start, end: close_span.end };
        let mut v: Vec<WikiItem> = Vec::new();
        v.push(WikiItem::LinkStart { span: outer, url });
        v.push(WikiItem::Text { span: alias });
        v.push(WikiItem::LinkEnd { span: outer });
        Ok(v)
    }
}

/// Scans a literal text run from the cursor to the next `[[` (or the end of
/// the tokens), consuming it, and returns the span it covers. The run is
/// never empty: the token under the cursor is always part of it.
fn parse_text(toks: &Vec<(Token, Span)>, pos: &mut usize) -> (r: Span)
    requires
        *old(pos) < toks@.len(),
        toks@[*old(pos) as int].0 != Token::OpenBracket,
    ensures
        ({
            let i = *old(pos) as int;
            let j = text_stop(toks@, i + 1);
            &&& r == Span { start: toks@[i].1.start, end: toks@[j - 1].1.end }
            &&& *final(pos) == j
        }),
{
    proof {
        lemma_text_stop_bounds(toks@, *old(pos) as int + 1);
    }
    let n = toks.len();
    let i = *pos;
    let start = toks[i].1.start;
    let mut end = toks[i].1.end;
    let mut p = i + 1;
    while p < n && toks[p].0 != Token::OpenBracket
        invariant
            i + 1 <= p <= n == toks@.len(),
            text_stop(toks@, i as int + 1) == text_stop(toks@, p as int),
            end == toks@[p - 1].1.end,
        decreases n - p,
    {
        end = toks[p].1.end;
        p = p + 1;
    }
    *pos = p;
    Span { start, end }
}

/// Runs the wikilink parser over a whole token list, materializing every
/// item it would lazily yield.
pub fn wiki_scan(toks: &Vec<(Token, Span)>) -> (items: Vec<WikiItem>)
    ensures
        items@ == wiki_items_from(toks@, 0),
{
    let mut items: Vec<WikiItem> = Vec::new();
    let mut pos: usize = 0;
    while pos < toks.len()
        invariant
            pos <= toks@.len(),
            wiki_items_from(toks@, 0) == items@ + wiki_items_from(toks@, pos as int),
        decreases toks@.len() - pos,
    {
        let ghost i = pos as int;
        let t = toks[pos].0;
        if t == Token::NewLine {
            pos = pos + 1;
        } else if t == Token::OpenBracket {
            proof {
                lemma_field_stop_spec(toks@, i + 1, true);
                let j1 = field_stop(toks@, i + 1, true);
                if j1 < toks@.len() {
                    lemma_field_stop_spec(toks@, j1 + 1, false);
                }
            }
            match parse_wikilink(toks, &mut pos) {
                Ok(mut v) => {
                    proof {
                        assert(wiki_items_from(toks@, i) =~= v@ + wiki_items_from(
                            toks@,
                            pos as int,
                        ));
                    }
                    items.append(&mut v);
                },
                Err(ParseError::ReParse(r)) => {
                    proof {
                        assert(wiki_items_from(toks@, i) =~= seq![WikiItem::Text { span: r }]
                            + wiki_items_from(toks@, pos as int));
                    }
                    items.push(WikiItem::Text { span: r });
                },
                Err(ParseError::Empty) => {
                    proof {
                        assert(false);
                    }
                },
            }
        } else {
            proof {
                lemma_text_stop_bounds(toks@, i + 1);
            }
            let r = parse_text(toks, &mut pos);
            proof {
                assert(wiki_items_from(toks@, i) =~= seq![WikiItem::Text { span: r }]
                    + wiki_items_from(toks@, pos as int));
            }
            items.push(WikiItem::Text { span: r });
        }
        proof {
            assert(wiki_items_from(toks@, 0) =~= items@ + wiki_items_from(toks@, pos as int));
        }
    }
    items
}

/// The top-level byte ranges of a parse, in order: each literal text span,
/// and each successful wikilink once, by the outer span of its triple.
pub open spec fn top_spans(items: Seq<WikiItem>) -> Seq<Span>
    decreases items.len(),
{
    if items.len() == 0 {
        Seq::empty()
    } else {
        match items[0] {
            WikiItem::LinkStart { span, url: _ } => if items.len() >= 3 {
                seq![span] + top_spans(items.skip(3))
            } else {
                seq![span]
            },
            WikiItem::Text { span } => seq![span] + top_spans(items.skip(1)),
            WikiItem::LinkEnd { span } => seq![span] + top_spans(items.skip(1)),
        }
    }
}

/// Every byte in `[lo, hi)` is a line feed.
pub open spec fn all_newlines(s: Seq<u8>, lo: int, hi: int) -> bool {
    forall|q: int| lo <= q < hi ==> s[q] == BYTE_NEWLINE
}

/// The spans cover `[lo, hi)` in order and without overlap, and whatever
/// they leave uncovered — before the first, between two, after the last —
/// consists of line-feed bytes only.
pub open spec fn spans_chain(s: Seq<u8>, spans: Seq<Span>, lo: int, hi: int) -> bool
    decreases spans.len(),
{
    if spans.len() == 0 {
        all_newlines(s, lo, hi)
    } else {
        &&& lo <= spans[0].start
        &&& spans[0].wf()
        &&& spans[0].end <= hi
        &&& all_newlines(s, lo, spans[0].start as int)
        &&& spans_chain(s, spans.skip(1), spans[0].end as int, hi)
    }
}

/// Where the unparsed remainder begins: at token `i`, or at the right edge
/// once the tokens are exhausted.
pub open spec fn start_of(toks: Seq<(Token, Span)>, i: int, hi: int) -> int {
    if i < toks.len() {
        toks[i].1.start as int
    } else {
        hi
    }
}

/// A linked token list never runs backwards: the start of token `a` lies
/// strictly before the end of any token at or after it.
proof fn lemma_token_order(toks: Seq<(Token, Span)>, lo: int, hi: int, a: int, b: int)
    requires
        tokens_linked(toks, lo, hi),
        0 <= a <= b < toks.len(),
    ensures
        toks[a].1.start < toks[b].1.end,
    decreases b - a,
{
    if a < b {
        lemma_token_order(toks, lo, hi, a + 1, b);
    }
}

/// Every token of a linked list ends at or before the right edge.
proof fn lemma_token_end_bound(toks: Seq<(Token, Span)>, lo: int, hi: int, k: int)
    requires
        tokens_linked(toks, lo, hi),
        0 <= k < toks.len(),
    ensures
        toks[k].1.end <= hi,
    decreases toks.len() - k,
{
    if k < toks.len() - 1 {
        lemma_token_end_bound(toks, lo, hi, k + 1);
    }
}

/// A chain still holds from an earlier left edge when the bytes in between
/// are all line feeds.
proof fn lemma_chain_extend_left(s: Seq<u8>, spans: Seq<Span>, lo: int, mid: int, hi: int)
    requires
        lo <= mid,
        all_newlines(s, lo, mid),
        spans_chain(s, spans, mid, hi),
    ensures
        spans_chain(s, spans, lo, hi),
{
}

/// A single span that reaches the right edge chains on its own.
proof fn lemma_chain_single(s: Seq<u8>, sp: Span, hi: int)
    requires
        sp.wf(),
        sp.end == hi,
    ensures
        spans_chain(s, seq![sp], sp.start as int, hi),
{
    assert(seq![sp].skip(1) =~= Seq::<Span>::empty());
    assert(spans_chain(s, Seq::<Span>::empty(), sp.end as int, hi));
}

/// A well-formed span chains onto whatever chains from its end.
proof fn lemma_chain_cons(s: Seq<u8>, sp: Span, rest: Seq<Span>, hi: int)
    requires
        sp.wf(),
        sp.end <= hi,
        spans_chain(s, rest, sp.end as int, hi),
    ensures
        spans_chain(s, seq![sp] + rest, sp.start as int, hi),
{
    assert((seq![sp] + rest).skip(1) =~= rest);
    assert((seq![sp] + rest)[0] == sp);
}

/// A failed attempt's single literal text item chains: its span runs from
/// the token under the cursor to the right edge.
proof fn lemma_cov_fail(s: Seq<u8>, toks: Seq<(Token, Span)>, i: int, lo: int, hi: int)
    requires
        tokens_linked(toks, lo, hi),
        0 <= i < toks.len(),
        wiki_items_from(toks, i) == seq![WikiItem::Text { span: fail_span(toks, i) }],
    ensures
        spans_chain(s, top_spans(wiki_items_from(toks, i)), start_of(toks, i, hi), hi),
{
    let fs = fail_span(toks, i);
    let items = wiki_items_from(toks, i);
    lemma_token_order(toks, lo, hi, i, toks.len() - 1);
    assert(items.skip(1) =~= Seq::<WikiItem>::empty());
    assert(top_spans(Seq::<WikiItem>::empty()) =~= Seq::<Span>::empty());
    assert(top_spans(items) =~= seq![fs]);
    lemma_chain_single(s, fs, hi);
}

/// A completed link triple at the head chains onto whatever chains from
/// the token after its closing `]]`.
proof fn lemma_cov_triple(
    s: Seq<u8>,
    toks: Seq<(Token, Span)>,
    i: int,
    jend: int,
    lo: int,
    hi: int,
    url: Span,
    txt: Span,
)
    requires
        tokens_linked(toks, lo, hi),
        0 <= i <= jend < toks.len(),
        wiki_items_from(toks, i) == (seq![
            WikiItem::LinkStart {
                span: Span { start: toks[i].1.start, end: toks[jend].1.end },
                url,
            },
            WikiItem::Text { span: txt },
            WikiItem::LinkEnd { span: Span { start: toks[i].1.start, end: toks[jend].1.end } },
        ] + wiki_items_from(toks, jend + 1)),
        spans_chain(s, top_spans(wiki_items_from(toks, jend + 1)), start_of(toks, jend + 1, hi), hi),
    ensures
        spans_chain(s, top_spans(wiki_items_from(toks, i)), start_of(toks, i, hi), hi),
{
    let outer = Span { start: toks[i].1.start, end: toks[jend].1.end };
    let items = wiki_items_from(toks, i);
    let rest = wiki_items_from(toks, jend + 1);
    lemma_token_order(toks, lo, hi, i, jend);
    lemma_token_end_bound(toks, lo, hi, jend);
    assert(items.skip(3) =~= rest);
    assert(top_spans(items) =~= seq![outer] + top_spans(rest));
    assert(outer.end == start_of(toks, jend + 1, hi));
    lemma_chain_cons(s, outer, top_spans(rest), hi);
}

/// A literal text run at the head chains onto whatever chains from the
/// `[[` (or the end) that stopped it.
proof fn lemma_cov_text(s: Seq<u8>, toks: Seq<(Token, Span)>, i: int, j: int, lo: int, hi: int)
    requires
        tokens_linked(toks, lo, hi),
        0 <= i < j <= toks.len(),
        wiki_items_from(toks, i) == (seq![
            WikiItem::Text { span: Span { start: toks[i].1.start, end: toks[j - 1].1.end } },
        ] + wiki_items_from(toks, j)),
        spans_chain(s, top_spans(wiki_items_from(toks, j)), start_of(toks, j, hi), hi),
    ensures
        spans_chain(s, top_spans(wiki_items_from(toks, i)), start_of(toks, i, hi), hi),
{
    let sp = Span { start: toks[i].1.start, end: toks[j - 1].1.end };
    let items = wiki_items_from(toks, i);
    let rest = wiki_items_from(toks, j);
    lemma_token_order(toks, lo, hi, i, j - 1);
    lemma_token_end_bound(toks, lo, hi, j - 1);
    assert(items.skip(1) =~= rest);
    assert(top_spans(items) =~= seq![sp] + top_spans(rest));
    assert(sp.end == start_of(toks, j, hi));
    lemma_chain_cons(s, sp, top_spans(rest), hi);
}

/// The wikilink parser's top-level ranges chain across the tokens from `i`
/// on: ordered, within bounds, with only skipped line breaks in the gaps.
proof fn lemma_wiki_coverage_from(s: Seq<u8>, toks: Seq<(Token, Span)>, i: int, lo: int, hi: int)
    requires
        0 <= i <= toks.len(),
        tokens_linked(toks, lo, hi),
        newline_tokens_cover_newlines(s, toks),
    ensures
        spans_chain(s, top_spans(wiki_items_from(toks, i)), start_of(toks, i, hi), hi),
    decreases toks.len() - i,
{
    let n = toks.len() as int;
    if i >= n {
    } else if toks[i].0 == Token::NewLine {
        lemma_wiki_coverage_from(s, toks, i + 1, lo, hi);
        assert(all_newlines(s, toks[i].1.start as int, start_of(toks, i + 1, hi)));
        lemma_chain_extend_left(
            s,
            top_spans(wiki_items_from(toks, i + 1)),
            toks[i].1.start as int,
            start_of(toks, i + 1, hi),
            hi,
        );
    } else if toks[i].0 == Token::OpenBracket {
        let j1 = field_stop(toks, i + 1, true);
        lemma_field_stop_bounds(toks, i + 1, true);
        if j1 >= n {
            assert(wiki_items_from(toks, i) == seq![WikiItem::Text { span: fail_span(toks, i) }]);
            lemma_cov_fail(s, toks, i, lo, hi);
        } else if toks[j1].0 == Token::CloseBracket {
            lemma_wiki_coverage_from(s, toks, j1 + 1, lo, hi);
            let url = field_span(toks, i + 1, j1);
            lemma_cov_triple(s, toks, i, j1, lo, hi, url, url);
        } else {
            let j2 = field_stop(toks, j1 + 1, false);
            lemma_field_stop_bounds(toks, j1 + 1, false);
            if j2 >= n {
                assert(wiki_items_from(toks, i) == seq![
                    WikiItem::Text { span: fail_span(toks, i) },
                ]);
                lemma_cov_fail(s, toks, i, lo, hi);
            } else {
                lemma_wiki_coverage_from(s, toks, j2 + 1, lo, hi);
                let url = field_span(toks, i + 1, j1);
                let alias = field_span(toks, j1 + 1, j2);
                lemma_cov_triple(s, toks, i, j2, lo, hi, url, alias);
            }
        }
    } else {
        let j = text_stop(toks, i + 1);
        lemma_text_stop_bounds(toks, i + 1);
        lemma_wiki_coverage_from(s, toks, j, lo, hi);
        lemma_cov_text(s, toks, i, j, lo, hi);
    }
}

/// For every source span, the ranges the wikilink parser emits at top level
/// — its literal text events, and each successful wikilink once, by the
/// outer range shared by its `LinkStart` and `LinkEnd` — cover `[lo, hi)`
/// in order, without overlap, and without losing a byte, except that the
/// line breaks the parser skips between items may fall in the gaps.
pub proof fn lemma_wiki_parse_covers(s: Seq<u8>, lo: int, hi: int)
    requires
        0 <= lo <= hi <= s.len(),
        hi <= usize::MAX,
    ensures
        spans_chain(s, top_spans(wiki_items_from(lex(s, lo, hi), 0)), lo, hi),
{
    lemma_lex_linked(s, lo, hi);
    let toks = lex(s, lo, hi);
    lemma_wiki_coverage_from(s, toks, 0, lo, hi);
    if toks.len() == 0 {
        assert(lo == hi);
    } else {
        assert(start_of(toks, 0, hi) == lo);
    }
}

/// The bytes the spans cover, in order.
pub open spec fn concat_spans(s: Seq<u8>, spans: Seq<Span>) -> Seq<u8>
    decreases spans.len(),
{
    if spans.len() == 0 {
        Seq::empty()
    } else {
        s.subrange(spans[0].start as int, spans[0].end as int) + concat_spans(s, spans.skip(1))
    }
}

/// A chain whose range holds no line feed has no gaps at all: the covered
/// bytes, concatenated in order, are exactly the range's bytes.
proof fn lemma_chain_concat_exact(s: Seq<u8>, spans: Seq<Span>, lo: int, hi: int)
    requires
        spans_chain(s, spans, lo, hi),
        0 <= lo <= hi <= s.len(),
        forall|q: int| lo <= q < hi ==> s[q] != BYTE_NEWLINE,
    ensures
        concat_spans(s, spans) == s.subrange(lo, hi),
    decreases spans.len(),
{
    if spans.len() == 0 {
        if lo < hi {
            assert(s[lo] == BYTE_NEWLINE);
        }
        assert(concat_spans(s, spans) =~= s.subrange(lo, hi));
    } else {
        let sp0 = spans[0];
        if lo < sp0.start {
            assert(s[lo] == BYTE_NEWLINE);
        }
        assert(sp0.start == lo);
        lemma_chain_concat_exact(s, spans.skip(1), sp0.end as int, hi);
        assert(concat_spans(s, spans) =~= s.subrange(lo, hi));
    }
}

/// For a source span holding no line break, concatenating the source bytes
/// of the parser's top-level ranges, in emission order, reconstructs the
/// span exactly: no gaps, no overlaps, no duplication. A successful
/// wikilink is represented once, by its outer range; its `[[`, `]]` and
/// structural `|` reappear only there.
pub proof fn lemma_wiki_parse_reconstructs(s: Seq<u8>, lo: int, hi: int)
    requires
        0 <= lo <= hi <= s.len(),
        hi <= usize::MAX,
        forall|q: int| lo <= q < hi ==> s[q] != BYTE_NEWLINE,
    ensures
        concat_spans(s, top_spans(wiki_items_from(lex(s, lo, hi), 0))) == s.subrange(lo, hi),
{
    lemma_wiki_parse_covers(s, lo, hi);
    lemma_chain_concat_exact(s, top_spans(wiki_items_from(lex(s, lo, hi), 0)), lo, hi);
}

} // verus!
