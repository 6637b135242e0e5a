use core::ops::Range;
use pulldown_cmark::{CodeBlockKind, Event, LinkType, MetadataBlockKind, Options, Tag, TagEnd};
use pulldown_cmark::Event::{End, Start, Text};
use wikilinks::ParserOffsetIter;

fn collect_events(s: &str, wikilinks: bool) -> Vec<(Event<'_>, Range<usize>)> {
    let mut p = ParserOffsetIter::new_ext(s, Options::all(), wikilinks);
    let mut v = Vec::new();
    while let Some(x) = p.next() {
        v.push(x);
    }
    v
}

#[test]
fn parse_no_alias() {
    let s = "here is a wikilink: [[link]]";
    let events: Vec<_> = collect_events(s, true);

    println!("{events:?}");
    assert_eq!(
        events,
        vec![
            (Start(Tag::Paragraph), 0..28),
            (Text("here is a wikilink: ".into()), 0..20),
            (
                Start(Tag::Link {
                    link_type: LinkType::Inline,
                    dest_url: "link".into(),
                    title: "wiki".into(),
                    id: "".into()
                }),
                20..28
            ),
            (Text("link".into()), 22..26),
            (End(TagEnd::Link), 20..28),
            (End(TagEnd::Paragraph), 0..28),
        ]
    );
}

#[test]
fn parse_in_metadata() {
    let s = "---\n[[wikilink]]\n---";
    let events: Vec<_> = collect_events(s, true).into_iter().map(|(x, _)| x).collect();

    assert_eq!(
        events,
        vec![
            Start(Tag::MetadataBlock(MetadataBlockKind::YamlStyle)),
            Text("[[wikilink]]\n".into()),
            End(TagEnd::MetadataBlock(MetadataBlockKind::YamlStyle))
        ]
    )
}

#[test]
fn parse_alias() {
    let s = "[[the url| with a strange content |😈| inside]]";

    let original_events: Vec<_> = pulldown_cmark::Parser::new(s).collect();

    println!("{original_events:?}");

    let events: Vec<_> = collect_events(s, true).into_iter().map(|(x, _)| x).collect();

    println!("{events:?}");
    assert_eq!(
        events,
        vec![
            Start(Tag::Paragraph),
            Start(Tag::Link {
                link_type: LinkType::Inline,
                dest_url: "the url".into(),
                title: "wiki".into(),
                id: "".into()
            }),
            Text(" with a strange content |😈| inside".into()),
            End(TagEnd::Link),
            End(TagEnd::Paragraph),
        ]
    );
}

#[test]
fn table_stream_has_no_empty_text() {
    let s = r#"
| unstyled | styled    |
| :-----:  | ------    |
| a  | **a**  |
| b  | **b**  |
| c  | **c**  |
"#;

    for (ev, _) in collect_events(s, true) {
        if let Event::Text(t) = ev {
            assert!(!t.is_empty());
        }
    }
}

#[test]
fn link_after_meta() {
    let s = "---\nmetadata: test\n---\n[[link]]";

    let events: Vec<_> = collect_events(s, true).into_iter().map(|(x, _)| x).collect();

    assert_eq!(
        events,
        vec![
            Start(Tag::MetadataBlock(MetadataBlockKind::YamlStyle)),
            Text("metadata: test\n".into()),
            End(TagEnd::MetadataBlock(MetadataBlockKind::YamlStyle)),
            Start(Tag::Paragraph),
            Start(Tag::Link {
                link_type: LinkType::Inline,
                dest_url: "link".into(),
                title: "wiki".into(),
                id: "".into()
            }),
            Text("link".into()),
            End(TagEnd::Link),
            End(TagEnd::Paragraph)
        ]
    )
}

#[test]
fn link_after_code() {
    let s = "```code\n```\n[[link]]";

    let events: Vec<_> = collect_events(s, true).into_iter().map(|(x, _)| x).collect();

    assert_eq!(
        events,
        vec![
            Start(Tag::CodeBlock(CodeBlockKind::Fenced("code".into()))),
            End(TagEnd::CodeBlock),
            Start(Tag::Paragraph),
            Start(Tag::Link {
                link_type: LinkType::Inline,
                dest_url: "link".into(),
                title: "wiki".into(),
                id: "".into()
            }),
            Text("link".into()),
            End(TagEnd::Link),
            End(TagEnd::Paragraph)
        ]
    )
}

#[test]
fn link_in_code() {
    let s = "```\n[[]]\n```";

    let events: Vec<_> = collect_events(s, true).into_iter().map(|(x, _)| x).collect();

    assert_eq!(
        events,
        vec![
            Start(Tag::CodeBlock(CodeBlockKind::Fenced("".into()))),
            Text("[[]]\n".into()),
            End(TagEnd::CodeBlock)
        ]
    )
}

#[test]
fn link_in_math() {
    let s = "$$[[]]$$";

    let events: Vec<_> = collect_events(s, true).into_iter().map(|(x, _)| x).collect();

    assert_eq!(
        events,
        vec![
            Start(Tag::Paragraph),
            Event::DisplayMath("[[]]".into()),
            End(TagEnd::Paragraph)
        ]
    )
}

#[test]
fn table() {
    // mainly a no-regression test: tables make the base parser emit empty
    // text events, which must be dropped
    let s = "## Style
| unstyled | styled    |
| :-----:  | ------    |
| bold     | **bold**  |
| italics  | *italics* |
| strike   | ~strike~  |
";

    assert_eq!(collect_events(s, true).len(), 43);
}
