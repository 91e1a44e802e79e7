use termsite::blogpost::{BlogPost, Content, Element, Footnote, InlineElement, PostDate, Tag};

fn words(s: &str) -> InlineElement {
    InlineElement::Text { content: s.as_bytes().to_vec() }
}

fn inline(e: &InlineElement) -> String {
    let mut out = Vec::new();
    e.push_text(&mut out);
    String::from_utf8(out).unwrap()
}

fn block(e: &Element) -> String {
    let mut out = Vec::new();
    e.push_text(&mut out);
    String::from_utf8(out).unwrap()
}

#[test]
fn inline_pieces() {
    assert_eq!(inline(&words("plain")), "plain");
    assert_eq!(inline(&InlineElement::Emph { text: vec![words("soft")] }), "_soft_");
    assert_eq!(inline(&InlineElement::Strong { text: vec![words("loud")] }), "*loud*");
    assert_eq!(
        inline(&InlineElement::Link { href: b"https://x".to_vec(), text: vec![words("there")] }),
        "[there](https://x)"
    );
    assert_eq!(inline(&InlineElement::InlineCode { content: b"x + 1".to_vec() }), "`x + 1`");
    assert_eq!(inline(&InlineElement::FootnoteRef { number: 3, tag: b"n".to_vec() }), "[3]");
    assert_eq!(inline(&InlineElement::FootnoteRef { number: 120, tag: b"n".to_vec() }), "[120]");
    assert_eq!(
        inline(&InlineElement::Image { src: b"a.png".to_vec(), alt: b"an A".to_vec() }),
        "<Image: an A (a.png)>"
    );
}

#[test]
fn inline_pieces_nest() {
    let piece = InlineElement::Strong {
        text: vec![
            words("a "),
            InlineElement::Emph { text: vec![words("b"), InlineElement::InlineCode { content: b"c".to_vec() }] },
        ],
    };
    assert_eq!(inline(&piece), "*a _b`c`_*");
}

#[test]
fn blocks() {
    assert_eq!(block(&Element::Paragraph { text: vec![words("a"), words("b")] }), "ab\n");
    assert_eq!(
        block(&Element::Code { lang: Some(b"rust".to_vec()), content: b"fn main() {}".to_vec() }),
        "```\nfn main() {}\n```\n"
    );
    assert_eq!(block(&Element::Footnote { tag: b"t".to_vec(), body: vec![] }), "BUG: footnote\n");
}

#[test]
fn content_without_footnotes() {
    let content = Content {
        content: vec![Element::Paragraph { text: vec![words("one")] }, Element::Paragraph { text: vec![words("two")] }],
        footnotes: vec![],
    };
    let mut out = Vec::new();
    content.push_text(&mut out);
    assert_eq!(String::from_utf8(out).unwrap(), "one\n\ntwo\n\n\n");
}

#[test]
fn content_with_footnotes() {
    let content = Content {
        content: vec![Element::Paragraph {
            text: vec![words("see"), InlineElement::FootnoteRef { number: 1, tag: b"a".to_vec() }],
        }],
        footnotes: vec![
            Footnote { tag: b"a".to_vec(), body: vec![Element::Paragraph { text: vec![words("first")] }] },
            Footnote { tag: b"b".to_vec(), body: vec![Element::Paragraph { text: vec![words("second")] }] },
        ],
    };
    let mut out = Vec::new();
    content.push_text(&mut out);
    assert_eq!(
        String::from_utf8(out).unwrap(),
        "see[1]\n\n\nFootnotes:\n[^1]: first\n\n[^2]: second\n\n"
    );
}

#[test]
fn post_page() {
    let post = BlogPost {
        title: b"Hello".to_vec(),
        url: b"hello".to_vec(),
        date: PostDate { year: 2023, month: 1, day: 9 },
        visibility: 1,
        tags: vec![Tag::Note],
        content: Content { content: vec![Element::Paragraph { text: vec![words("hi")] }], footnotes: vec![] },
    };
    assert_eq!(
        String::from_utf8(post.to_text(b"example.org").unwrap()).unwrap(),
        "=== Hello ===\nhttps://example.org/projects/hello\n2023-01-09\n\nhi\n\n\n\n"
    );
    assert_eq!(
        String::from_utf8(post.text_with(b"d", b"today")).unwrap(),
        "=== Hello ===\nhttps://d/projects/hello\ntoday\n\nhi\n\n\n\n"
    );
}

#[test]
fn dates_are_written_by_the_calendar() {
    let date = PostDate { year: 2024, month: 2, day: 29 };
    assert_eq!(date.stamp(), Some(b"20240229".to_vec()));
    assert_eq!(date.text(), Some(b"2024-02-29".to_vec()));
    let early = PostDate { year: 987, month: 6, day: 5 };
    assert_eq!(early.stamp(), Some(b"09870605".to_vec()));
    assert_eq!(early.text(), Some(b"0987-06-05".to_vec()));
}

#[test]
fn days_that_the_calendar_does_not_have() {
    for (year, month, day) in [(2023, 2, 29), (2023, 0, 1), (2023, 13, 1), (2023, 4, 31), (2023, 1, 0)] {
        let date = PostDate { year, month, day };
        assert_eq!(date.stamp(), None);
        assert_eq!(date.text(), None);
    }
    let post = BlogPost {
        title: Vec::new(),
        url: Vec::new(),
        date: PostDate { year: 2023, month: 2, day: 30 },
        visibility: 1,
        tags: vec![],
        content: Content { content: vec![], footnotes: vec![] },
    };
    assert_eq!(post.to_text(b"d"), None);
}
