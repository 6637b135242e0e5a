use vstd::prelude::*;

use crate::span::{span_at, Span};

verus! {

/// `[`
pub const BYTE_LBRACK: u8 = 91;

/// `]`
pub const BYTE_RBRACK: u8 = 93;

/// `|`
pub const BYTE_PIPE: u8 = 124;

/// line feed
pub const BYTE_NEWLINE: u8 = 10;

/// The lexical units that matter for wikilink recognition: the two-character
/// delimiters `[[` and `]]`, the single `|`, a line break, and a maximal run
/// of any other bytes.
#[derive(Clone, Copy, PartialEq, Eq, Structural, Debug)]
pub enum Token {
    OpenBracket,
    CloseBracket,
    Pipe,
    NewLine,
    Other,
}

/// An `[[` delimiter begins at position `p` (both bytes must lie before `end`).
pub open spec fn starts_open(s: Seq<u8>, p: int, end: int) -> bool {
    p + 1 < end && s[p] == BYTE_LBRACK && s[p + 1] == BYTE_LBRACK
}

/// A `]]` delimiter begins at position `p`.
pub open spec fn starts_close(s: Seq<u8>, p: int, end: int) -> bool {
    p + 1 < end && s[p] == BYTE_RBRACK && s[p + 1] == BYTE_RBRACK
}

/// Position `p` begins a token other than a continuation of an `Other` run:
/// one of the delimiters, a pipe, or a line break.
pub open spec fn delim_at(s: Seq<u8>, p: int, end: int) -> bool {
    ||| s[p] == BYTE_PIPE
    ||| s[p] == BYTE_NEWLINE
    ||| starts_open(s, p, end)
    ||| starts_close(s, p, end)
}

/// The end of the `Other` run continuing through `p`: the first position at
/// or after `p` that is `end` or begins a delimiter token.
pub open spec fn other_end(s: Seq<u8>, p: int, end: int) -> int
    decreases end - p,
{
    if p >= end {
        end
    } else if delim_at(s, p, end) {
        p
    } else {
        other_end(s, p + 1, end)
    }
}

pub proof fn lemma_other_end_bounds(s: Seq<u8>, p: int, end: int)
    requires
        p <= end,
    ensures
        p <= other_end(s, p, end) <= end,
    decreases end - p,
{
    if p < end && !delim_at(s, p, end) {
        lemma_other_end_bounds(s, p + 1, end);
    }
}

/// `other_end` finds exactly the first delimiter position: nothing before
/// it starts a delimiter token, and it starts one itself unless the run
/// reaches `end`.
pub proof fn lemma_other_end_spec(s: Seq<u8>, p: int, end: int)
    requires
        p <= end,
    ensures
        p <= other_end(s, p, end) <= end,
        forall|q: int| p <= q < other_end(s, p, end) ==> !delim_at(s, q, end),
        other_end(s, p, end) < end ==> delim_at(s, other_end(s, p, end), end),
    decreases end - p,
{
    if p < end && !delim_at(s, p, end) {
        lemma_other_end_spec(s, p + 1, end);
    }
}

/// The token sequence of `s[pos .. end]`: the single forward greedy scan that
/// gives `[[`, `]]`, `|` and a line break their own tokens and gathers every
/// maximal run of remaining bytes into one `Other` token.
pub open spec fn lex(s: Seq<u8>, pos: int, end: int) -> Seq<(Token, Span)>
    decreases end - pos,
    when pos <= end
    via lex_decreases
{
    if pos >= end {
        Seq::empty()
    } else if starts_open(s, pos, end) {
        seq![(Token::OpenBracket, span_at(pos, pos + 2))] + lex(s, pos + 2, end)
    } else if starts_close(s, pos, end) {
        seq![(Token::CloseBracket, span_at(pos, pos + 2))] + lex(s, pos + 2, end)
    } else if s[pos] == BYTE_PIPE {
        seq![(Token::Pipe, span_at(pos, pos + 1))] + lex(s, pos + 1, end)
    } else if s[pos] == BYTE_NEWLINE {
        seq![(Token::NewLine, span_at(pos, pos + 1))] + lex(s, pos + 1, end)
    } else {
        let e = other_end(s, pos + 1, end);
        seq![(Token::Other, span_at(pos, e))] + lex(s, e, end)
    }
}

#[via_fn]
proof fn lex_decreases(s: Seq<u8>, pos: int, end: int) {
    if pos < end && !starts_open(s, pos, end) && !starts_close(s, pos, end) && s[pos] != BYTE_PIPE
        && s[pos] != BYTE_NEWLINE {
        lemma_other_end_bounds(s, pos + 1, end);
    }
}

/// The token spans are non-empty, adjacent, and cover `[lo, hi)` exactly.
pub open spec fn tokens_linked(toks: Seq<(Token, Span)>, lo: int, hi: int) -> bool {
    &&& (forall|k: int| 0 <= k < toks.len() ==> (#[trigger] toks[k]).1.start < toks[k].1.end)
    &&& (forall|k: int|
        0 <= k < toks.len() - 1 ==> (#[trigger] toks[k]).1.end == toks[k + 1].1.start)
    &&& (toks.len() == 0 ==> lo == hi)
    &&& (toks.len() > 0 ==> toks[0].1.start == lo && toks[toks.len() - 1].1.end == hi)
}

/// Every `NewLine` token covers exactly one byte, a line feed.
pub open spec fn newline_tokens_cover_newlines(s: Seq<u8>, toks: Seq<(Token, Span)>) -> bool {
    forall|k: int|
        0 <= k < toks.len() && (#[trigger] toks[k]).0 == Token::NewLine ==> toks[k].1.end
            == toks[k].1.start + 1 && s[toks[k].1.start as int] == BYTE_NEWLINE
}

/// The lexer's token list partitions the scanned range, and its `NewLine`
/// tokens sit exactly on the line-feed bytes.
pub proof fn lemma_lex_linked(s: Seq<u8>, pos: int, end: int)
    requires
        0 <= pos <= end <= usize::MAX,
    ensures
        tokens_linked(lex(s, pos, end), pos, end),
        newline_tokens_cover_newlines(s, lex(s, pos, end)),
    decreases end - pos,
{
    if pos >= end {
    } else if starts_open(s, pos, end) || starts_close(s, pos, end) {
        lemma_lex_linked(s, pos + 2, end);
    } else if s[pos] == BYTE_PIPE || s[pos] == BYTE_NEWLINE {
        lemma_lex_linked(s, pos + 1, end);
    } else {
        let e = other_end(s, pos + 1, end);
        lemma_other_end_bounds(s, pos + 1, end);
        lemma_lex_linked(s, e, end);
    }
}

/// Decides `delim_at` on the bytes themselves.
fn delim_check(src: &[u8], p: usize, end: usize) -> (r: bool)
    requires
        p < end <= src@.len(),
    ensures
        r == delim_at(src@, p as int, end as int),
{
    let b = src[p];
    if b == BYTE_PIPE || b == BYTE_NEWLINE {
        true
    } else if b == BYTE_LBRACK || b == BYTE_RBRACK {
        p + 1 < end && src[p + 1] == b
    } else {
        false
    }
}

/// Scans `src[start .. end]` into its token sequence.
pub fn tokenize(src: &[u8], start: usize, end: usize) -> (toks: Vec<(Token, Span)>)
    requires
        start <= end <= src@.len(),
    ensures
        toks@ == lex(src@, start as int, end as int),
{
    let mut toks: Vec<(Token, Span)> = Vec::new();
    let mut pos: usize = start;
    while pos < end
        invariant
            start <= pos <= end <= src@.len(),
            lex(src@, start as int, end as int) == toks@ + lex(src@, pos as int, end as int),
        decreases end - pos,
    {
        let b = src[pos];
        if (b == BYTE_LBRACK || b == BYTE_RBRACK) && pos + 1 < end && src[pos + 1] == b {
            let tok = if b == BYTE_LBRACK {
                Token::OpenBracket
            } else {
                Token::CloseBracket
            };
            toks.push((tok, Span { start: pos, end: pos + 2 }));
            pos = pos + 2;
        } else if b == BYTE_PIPE {
            toks.push((Token::Pipe, Span { start: pos, end: pos + 1 }));
            pos = pos + 1;
        } else if b == BYTE_NEWLINE {
            toks.push((Token::NewLine, Span { start: pos, end: pos + 1 }));
            pos = pos + 1;
        } else {
            let run_start = pos;
            pos = pos + 1;
            while pos < end && !delim_check(src, pos, end)
                invariant
                    run_start < pos <= end <= src@.len(),
                    other_end(src@, run_start as int + 1, end as int) == other_end(
                        src@,
                        pos as int,
                        end as int,
                    ),
                decreases end - pos,
            {
                pos = pos + 1;
            }
            proof {
                assert(other_end(src@, pos as int, end as int) == pos as int);
            }
            toks.push((Token::Other, Span { start: run_start, end: pos }));
        }
    }
    toks
}

} // verus!
