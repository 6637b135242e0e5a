use core::ops::Range;
use pulldown_cmark::{Event, LinkType, Options, Tag, TagEnd};
use pulldown_cmark::Event::{End, Start, Text};
use wikilinks::span::Span;
use wikilinks::token::{tokenize, Token};
use wikilinks::overlay::{coalesce, BaseRec, CoalItem, EvKind};
use wikilinks::{ParserOffsetIter, WikiParser};

fn collect_wiki(s: &str, range: Range<usize>) -> Vec<(Event<'_>, Range<usize>)> {
    let mut p = WikiParser::new(s, range);
    let mut v = Vec::new();
    while let Some(x) = p.next() {
        v.push(x);
    }
    v
}

fn collect_events(s: &str, wikilinks: bool) -> Vec<(Event<'_>, Range<usize>)> {
    let mut p = ParserOffsetIter::new_ext(s, Options::all(), wikilinks);
    let mut v = Vec::new();
    while let Some(x) = p.next() {
        v.push(x);
    }
    v
}

fn link_start(url: &str) -> Event<'_> {
    Start(Tag::Link {
        link_type: LinkType::Inline,
        dest_url: url.into(),
        title: "wiki".into(),
        id: "".into(),
    })
}

#[test]
fn tokenize_delimiters() {
    let s = b"ab[[x|y]]\nz[";
    let toks = tokenize(s, 0, s.len());
    assert_eq!(
        toks,
        vec![
            (Token::Other, Span { start: 0, end: 2 }),
            (Token::OpenBracket, Span { start: 2, end: 4 }),
            (Token::Other, Span { start: 4, end: 5 }),
            (Token::Pipe, Span { start: 5, end: 6 }),
            (Token::Other, Span { start: 6, end: 7 }),
            (Token::CloseBracket, Span { start: 7, end: 9 }),
            (Token::NewLine, Span { start: 9, end: 10 }),
            (Token::Other, Span { start: 10, end: 12 }),
        ]
    );
}

#[test]
fn tokenize_single_brackets_are_content() {
    let s = b"a[b]c";
    let toks = tokenize(s, 0, s.len());
    assert_eq!(toks, vec![(Token::Other, Span { start: 0, end: 5 })]);
}

#[test]
fn tokenize_subrange() {
    let s = b"xx[[yy";
    let toks = tokenize(s, 2, 6);
    assert_eq!(
        toks,
        vec![
            (Token::OpenBracket, Span { start: 2, end: 4 }),
            (Token::Other, Span { start: 4, end: 6 }),
        ]
    );
}

#[test]
fn wiki_parser_simple_link() {
    let s = "see [[note]]!";
    let events = collect_wiki(s, 0..s.len());
    assert_eq!(
        events,
        vec![
            (Text("see ".into()), 0..4),
            (link_start("note"), 4..12),
            (Text("note".into()), 6..10),
            (End(TagEnd::Link), 4..12),
            (Text("!".into()), 12..13),
        ]
    );
}

#[test]
fn wiki_parser_alias_keeps_later_pipes() {
    let s = "[[a|b|c]]";
    let events = collect_wiki(s, 0..s.len());
    assert_eq!(
        events,
        vec![
            (link_start("a"), 0..9),
            (Text("b|c".into()), 4..7),
            (End(TagEnd::Link), 0..9),
        ]
    );
}

#[test]
fn wiki_parser_unterminated_falls_back_to_text() {
    let s = "oops [[broken";
    let events = collect_wiki(s, 0..s.len());
    assert_eq!(
        events,
        vec![
            (Text("oops ".into()), 0..5),
            (Text("[[broken".into()), 5..13),
        ]
    );
}

#[test]
fn wiki_parser_unterminated_alias_falls_back_to_text() {
    let s = "[[a|b";
    let events = collect_wiki(s, 0..s.len());
    assert_eq!(events, vec![(Text("[[a|b".into()), 0..5)]);
}

#[test]
fn wiki_parser_lone_open_bracket_falls_back_to_text() {
    let s = "[[";
    let events = collect_wiki(s, 0..s.len());
    assert_eq!(events, vec![(Text("[[".into()), 0..2)]);
}

#[test]
fn wiki_parser_trailing_pipe_falls_back_to_text() {
    let s = "[[a|";
    let events = collect_wiki(s, 0..s.len());
    assert_eq!(events, vec![(Text("[[a|".into()), 0..4)]);
}

#[test]
fn wiki_parser_skips_leading_newline() {
    let s = "\n[[x]]";
    let events = collect_wiki(s, 0..s.len());
    assert_eq!(
        events,
        vec![
            (link_start("x"), 1..6),
            (Text("x".into()), 3..4),
            (End(TagEnd::Link), 1..6),
        ]
    );
}

#[test]
fn wiki_parser_empty_target() {
    let s = "[[]]";
    let events = collect_wiki(s, 0..s.len());
    assert_eq!(
        events,
        vec![
            (link_start(""), 0..4),
            (Text("".into()), 2..2),
            (End(TagEnd::Link), 0..4),
        ]
    );
}

#[test]
fn wiki_parser_scoped_to_subrange() {
    let s = "ab [[x]] cd";
    let events = collect_wiki(s, 3..8);
    assert_eq!(
        events,
        vec![
            (link_start("x"), 3..8),
            (Text("x".into()), 5..6),
            (End(TagEnd::Link), 3..8),
        ]
    );
}

#[test]
fn ranges_reconstruct_source() {
    let s = "a [[b]] c [[d|e]] f, and [[broken";
    let events = collect_events(s, true);
    let mut rebuilt = String::new();
    let mut in_link = false;
    for (ev, range) in &events {
        match ev {
            Start(Tag::Paragraph) | End(TagEnd::Paragraph) => {},
            Start(Tag::Link { .. }) => {
                assert!(!in_link);
                in_link = true;
                rebuilt.push_str(&s[range.clone()]);
            },
            End(TagEnd::Link) => {
                assert!(in_link);
                in_link = false;
            },
            _ => {
                if !in_link {
                    rebuilt.push_str(&s[range.clone()]);
                }
            },
        }
    }
    assert_eq!(rebuilt, s);
}

#[test]
fn disabled_overlay_is_plain_coalesced_stream() {
    let s = "a [[b]] c\n\n| x | y |\n| - | - |\n| 1 | 2 |\n";
    let events = collect_events(s, false);
    for (ev, _) in &events {
        match ev {
            Start(Tag::Link { title, .. }) => assert_ne!(title.as_ref(), "wiki"),
            Text(t) => assert!(!t.is_empty()),
            _ => {},
        }
    }
    // the wikilink syntax is left exactly as written
    assert!(events.iter().any(|(ev, _)| matches!(ev, Text(t) if t.as_ref() == "a [[b]] c")));
}

#[test]
fn empty_text_spans_are_dropped() {
    let evs = vec![
        BaseRec { kind: EvKind::Other, span: Span { start: 0, end: 9 } },
        BaseRec { kind: EvKind::Text, span: Span { start: 0, end: 0 } },
        BaseRec { kind: EvKind::Text, span: Span { start: 0, end: 4 } },
        BaseRec { kind: EvKind::Text, span: Span { start: 4, end: 4 } },
        BaseRec { kind: EvKind::Text, span: Span { start: 4, end: 9 } },
        BaseRec { kind: EvKind::Text, span: Span { start: 9, end: 9 } },
        BaseRec { kind: EvKind::Other, span: Span { start: 0, end: 9 } },
    ];
    let items = coalesce(&evs);
    assert_eq!(
        items,
        vec![
            CoalItem::NonText { idx: 0, kind: EvKind::Other },
            CoalItem::Text { span: Span { start: 0, end: 9 } },
            CoalItem::NonText { idx: 6, kind: EvKind::Other },
        ]
    );
}

#[test]
fn empty_source_yields_no_events() {
    let events = collect_events("", true);
    assert_eq!(events, vec![]);
}
