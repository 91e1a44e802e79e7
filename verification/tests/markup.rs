use termsite::blogpost::{Content, Element, Footnote, InlineElement};
use termsite::footnotes::{extract_footnotes, number_all_references, BodyError, FootnoteError};
use termsite::markup::{Container, Event, ParseError};

fn text(s: &str) -> Event {
    Event::Text(s.as_bytes().to_vec())
}

fn words(s: &str) -> InlineElement {
    InlineElement::Text { content: s.as_bytes().to_vec() }
}

fn paragraph(events: Vec<Event>) -> Vec<Event> {
    let mut all = vec![Event::Start(Container::Paragraph)];
    all.extend(events);
    all.push(Event::End(Container::Paragraph));
    all
}

fn reference(tag: &str) -> Event {
    Event::FootnoteReference(tag.as_bytes().to_vec())
}

fn footnote(tag: &str, body: &str) -> Vec<Event> {
    let mut all = vec![Event::Start(Container::Footnote { label: tag.as_bytes().to_vec() })];
    all.extend(paragraph(vec![text(body)]));
    all.push(Event::End(Container::Footnote { label: tag.as_bytes().to_vec() }));
    all
}

fn blocks(events: &Vec<Event>) -> Result<(Vec<Element>, usize), ParseError> {
    let mut out = Vec::new();
    Element::parse_many(events, 0, &mut out).map(|next| (out, next))
}

#[test]
fn a_run_of_text_is_one_text() {
    let events = vec![text("a"), text("\u{2014}"), text("b"), Event::Blankline, text("c")];
    assert_eq!(InlineElement::parse_text(&events, 0), ("a\u{2014}b".as_bytes().to_vec(), 3));
    assert_eq!(InlineElement::parse_text(&events, 3), (Vec::new(), 3));
    assert_eq!(InlineElement::parse_text(&events, 5), (Vec::new(), 5));
}

#[test]
fn pieces_end_with_their_container() {
    let events = vec![text("a"), Event::Start(Container::Emphasis), text("b"), Event::End(Container::Emphasis), text("c"), Event::End(Container::Paragraph), text("d")];
    let mut out = Vec::new();
    assert_eq!(InlineElement::parse_many(&events, 0, &mut out), Ok(5));
    assert_eq!(out, vec![words("a"), InlineElement::Emph { text: vec![words("b")] }, words("c")]);
}

#[test]
fn every_kind_of_piece() {
    let events = paragraph(vec![
        Event::Start(Container::Strong),
        Event::Start(Container::Link { url: b"https://x".to_vec(), inline: true }),
        text("go"),
        Event::End(Container::Link { url: b"other".to_vec(), inline: false }),
        Event::End(Container::Strong),
        Event::Start(Container::Verbatim),
        text("co"),
        text("de"),
        Event::End(Container::Verbatim),
        Event::Start(Container::Image { src: b"a.png".to_vec(), inline: true }),
        text("an A"),
        Event::End(Container::Image { src: b"a.png".to_vec(), inline: true }),
        reference("n"),
    ]);
    let (found, next) = blocks(&events).unwrap();
    assert_eq!(next, events.len());
    assert_eq!(
        found,
        vec![Element::Paragraph {
            text: vec![
                InlineElement::Strong {
                    text: vec![InlineElement::Link { href: b"https://x".to_vec(), text: vec![words("go")] }],
                },
                InlineElement::InlineCode { content: b"code".to_vec() },
                InlineElement::Image { src: b"a.png".to_vec(), alt: b"an A".to_vec() },
                InlineElement::FootnoteRef { number: 0, tag: b"n".to_vec() },
            ],
        }]
    );
}

#[test]
fn blocks_of_every_kind_and_blank_lines() {
    let mut events = vec![Event::Blankline];
    events.extend(paragraph(vec![text("p")]));
    events.push(Event::Blankline);
    events.push(Event::Start(Container::CodeBlock { language: b"rust".to_vec() }));
    events.push(text("fn f() {}"));
    events.push(Event::End(Container::CodeBlock { language: b"rust".to_vec() }));
    events.push(Event::Start(Container::CodeBlock { language: Vec::new() }));
    events.push(text("plain"));
    events.push(Event::End(Container::CodeBlock { language: Vec::new() }));
    events.extend(footnote("n", "said"));
    let (found, next) = blocks(&events).unwrap();
    assert_eq!(next, events.len());
    assert_eq!(
        found,
        vec![
            Element::Paragraph { text: vec![words("p")] },
            Element::Code { lang: Some(b"rust".to_vec()), content: b"fn f() {}".to_vec() },
            Element::Code { lang: None, content: b"plain".to_vec() },
            Element::Footnote { tag: b"n".to_vec(), body: vec![Element::Paragraph { text: vec![words("said")] }] },
        ]
    );
}

#[test]
fn reading_stops_at_a_stray_end() {
    let mut events = paragraph(vec![text("p")]);
    events.push(Event::End(Container::Strong));
    events.extend(paragraph(vec![text("q")]));
    let (found, next) = blocks(&events).unwrap();
    assert_eq!(found.len(), 1);
    assert_eq!(next, 3);
}

#[test]
fn no_events_are_no_blocks() {
    assert_eq!(blocks(&Vec::new()), Ok((Vec::new(), 0)));
}

#[test]
fn what_is_wrong_with_the_markup() {
    // A paragraph that does not end.
    assert_eq!(blocks(&vec![Event::Start(Container::Paragraph), text("p")]), Err(ParseError::ExpectedEnd { at: 2 }));
    // A paragraph that ends as something else.
    assert_eq!(
        blocks(&vec![Event::Start(Container::Paragraph), text("p"), Event::End(Container::Strong)]),
        Err(ParseError::ExpectedEnd { at: 2 })
    );
    // Code without text.
    assert_eq!(
        blocks(&vec![Event::Start(Container::CodeBlock { language: Vec::new() }), Event::End(Container::CodeBlock { language: Vec::new() })]),
        Err(ParseError::InvalidCode { at: 1 })
    );
    // Code with more than text.
    assert_eq!(
        blocks(&paragraph(vec![Event::Start(Container::Verbatim), text("a"), reference("n"), Event::End(Container::Verbatim)])),
        Err(ParseError::ExpectedEnd { at: 3 })
    );
    // An image without a description.
    assert_eq!(
        blocks(&paragraph(vec![Event::Start(Container::Image { src: Vec::new(), inline: true }), Event::End(Container::Image { src: Vec::new(), inline: true })])),
        Err(ParseError::MissingAlt { at: 2 })
    );
    // What a post may not hold.
    assert_eq!(blocks(&vec![Event::Start(Container::Other)]), Err(ParseError::Unsupported { at: 0 }));
    assert_eq!(blocks(&vec![text("loose")]), Err(ParseError::Unsupported { at: 0 }));
    assert_eq!(blocks(&paragraph(vec![Event::Other])), Err(ParseError::Unsupported { at: 1 }));
    assert_eq!(blocks(&paragraph(vec![Event::Blankline])), Err(ParseError::Unsupported { at: 1 }));
    assert_eq!(
        blocks(&paragraph(vec![Event::Start(Container::Link { url: Vec::new(), inline: false }), Event::End(Container::Link { url: Vec::new(), inline: false })])),
        Err(ParseError::Unsupported { at: 1 })
    );
    assert_eq!(
        blocks(&paragraph(vec![Event::Start(Container::Image { src: Vec::new(), inline: false }), text("a"), Event::End(Container::Image { src: Vec::new(), inline: false })])),
        Err(ParseError::Unsupported { at: 1 })
    );
}

#[test]
fn references_are_numbered_in_order() {
    let pieces = vec![
        InlineElement::FootnoteRef { number: 0, tag: b"b".to_vec() },
        InlineElement::Emph { text: vec![words("x"), InlineElement::FootnoteRef { number: 0, tag: b"a".to_vec() }] },
        InlineElement::Link { href: Vec::new(), text: vec![InlineElement::Strong { text: vec![InlineElement::FootnoteRef { number: 9, tag: b"c".to_vec() }] }] },
    ];
    let mut seen = vec![b"earlier".to_vec()];
    let numbered = number_all_references(pieces, &mut seen);
    assert_eq!(seen, vec![b"earlier".to_vec(), b"b".to_vec(), b"a".to_vec(), b"c".to_vec()]);
    assert_eq!(
        numbered,
        vec![
            InlineElement::FootnoteRef { number: 2, tag: b"b".to_vec() },
            InlineElement::Emph { text: vec![words("x"), InlineElement::FootnoteRef { number: 3, tag: b"a".to_vec() }] },
            InlineElement::Link { href: Vec::new(), text: vec![InlineElement::Strong { text: vec![InlineElement::FootnoteRef { number: 4, tag: b"c".to_vec() }] }] },
        ]
    );
}

#[test]
fn footnotes_come_out_in_the_order_of_the_references() {
    let mut events = footnote("late", "second");
    events.extend(paragraph(vec![text("a"), reference("early"), text("b"), reference("late")]));
    events.push(Event::Start(Container::CodeBlock { language: Vec::new() }));
    events.push(text("code"));
    events.push(Event::End(Container::CodeBlock { language: Vec::new() }));
    events.extend(footnote("early", "first"));
    let post = Content::from_events(&events).unwrap();
    assert_eq!(
        post,
        Content {
            content: vec![
                Element::Paragraph {
                    text: vec![
                        words("a"),
                        InlineElement::FootnoteRef { number: 1, tag: b"early".to_vec() },
                        words("b"),
                        InlineElement::FootnoteRef { number: 2, tag: b"late".to_vec() },
                    ],
                },
                Element::Code { lang: None, content: b"code".to_vec() },
            ],
            footnotes: vec![
                Footnote { tag: b"early".to_vec(), body: vec![Element::Paragraph { text: vec![words("first")] }] },
                Footnote { tag: b"late".to_vec(), body: vec![Element::Paragraph { text: vec![words("second")] }] },
            ],
        }
    );
    let mut out = Vec::new();
    post.push_text(&mut out);
    assert_eq!(
        String::from_utf8(out).unwrap(),
        "a[1]b[2]\n\n```\ncode\n```\n\n\nFootnotes:\n[^1]: first\n\n[^2]: second\n\n"
    );
}

#[test]
fn a_post_without_footnotes() {
    let post = Content::from_events(&paragraph(vec![text("just text")])).unwrap();
    assert_eq!(post.footnotes, Vec::new());
    assert_eq!(post.content, vec![Element::Paragraph { text: vec![words("just text")] }]);
    assert_eq!(Content::from_events(&Vec::new()), Ok(Content { content: Vec::new(), footnotes: Vec::new() }));
}

#[test]
fn references_inside_footnotes_are_not_numbered() {
    let mut events = paragraph(vec![reference("n")]);
    events.push(Event::Start(Container::Footnote { label: b"n".to_vec() }));
    events.extend(paragraph(vec![reference("inner")]));
    events.push(Event::End(Container::Footnote { label: b"n".to_vec() }));
    let post = Content::from_events(&events).unwrap();
    assert_eq!(
        post.footnotes,
        vec![Footnote {
            tag: b"n".to_vec(),
            body: vec![Element::Paragraph { text: vec![InlineElement::FootnoteRef { number: 0, tag: b"inner".to_vec() }] }],
        }]
    );
}

#[test]
fn footnotes_and_references_must_match() {
    // Two footnotes with one tag.
    let mut events = paragraph(vec![reference("n")]);
    events.extend(footnote("n", "one"));
    events.extend(footnote("n", "two"));
    assert_eq!(
        Content::from_events(&events),
        Err(BodyError::Footnotes(FootnoteError::Duplicate { tag: b"n".to_vec() }))
    );
    // A reference without a footnote.
    let mut events = paragraph(vec![reference("n"), reference("m")]);
    events.extend(footnote("n", "one"));
    assert_eq!(
        Content::from_events(&events),
        Err(BodyError::Footnotes(FootnoteError::Missing { tag: b"m".to_vec() }))
    );
    // Two references to one footnote.
    let mut events = paragraph(vec![reference("n"), text(" and "), reference("n")]);
    events.extend(footnote("n", "one"));
    assert_eq!(
        Content::from_events(&events),
        Err(BodyError::Footnotes(FootnoteError::Missing { tag: b"n".to_vec() }))
    );
    // A footnote without a reference.
    let mut events = paragraph(vec![reference("n")]);
    events.extend(footnote("loose", "zero"));
    events.extend(footnote("n", "one"));
    events.extend(footnote("looser", "two"));
    assert_eq!(
        Content::from_events(&events),
        Err(BodyError::Footnotes(FootnoteError::Unreferenced { tag: b"loose".to_vec() }))
    );
    // A shared tag is named before a missing footnote.
    let mut events = paragraph(vec![reference("m")]);
    events.extend(footnote("n", "one"));
    events.extend(footnote("n", "two"));
    assert_eq!(
        extract_footnotes(termsite_blocks(&events)),
        Err(FootnoteError::Duplicate { tag: b"n".to_vec() })
    );
}

fn termsite_blocks(events: &Vec<Event>) -> Vec<Element> {
    blocks(events).unwrap().0
}

#[test]
fn markup_errors_come_first() {
    let mut events = footnote("n", "one");
    events.push(Event::Other);
    assert_eq!(Content::from_events(&events), Err(BodyError::Markup(ParseError::Unsupported { at: 5 })));
}
