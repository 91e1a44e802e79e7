use termsite::project::{space, Content, Element, Project, Section, Skills, Text, TextElement, TitleDesc};

fn words(s: &str) -> TextElement {
    TextElement::Text(s.as_bytes().to_vec())
}

fn text(s: &str) -> Text {
    Text { text: vec![words(s)] }
}

fn render_element(e: &Element) -> String {
    let mut out = Vec::new();
    e.push_text(&mut out);
    String::from_utf8(out).unwrap()
}

fn render_section(s: &Section) -> String {
    let mut out = Vec::new();
    s.push_text(&mut out);
    String::from_utf8(out).unwrap()
}

#[test]
fn default_spacing_of_a_link_is_a_space() {
    assert_eq!(space(), b" ".to_vec());
}

#[test]
fn link_is_written_with_its_target() {
    let link = TextElement::Link {
        href: b"https://example.org".to_vec(),
        leading_space: space(),
        trailing_space: b"".to_vec(),
        text: vec![words("see "), words("here")],
    };
    let mut out = b"x".to_vec();
    link.push_text(&mut out);
    assert_eq!(out, b"x [see here](https://example.org)".to_vec());
}

#[test]
fn links_nest() {
    let inner = TextElement::Link {
        href: b"a".to_vec(),
        leading_space: b"".to_vec(),
        trailing_space: b"".to_vec(),
        text: vec![words("in")],
    };
    let outer = TextElement::Link {
        href: b"b".to_vec(),
        leading_space: b"<".to_vec(),
        trailing_space: b">".to_vec(),
        text: vec![words("out "), inner],
    };
    let mut out = Vec::new();
    Text { text: vec![words("t"), outer] }.push_text(&mut out);
    assert_eq!(out, b"t<[out [in](a)](b)>".to_vec());
}

#[test]
fn paragraph_ends_its_line() {
    assert_eq!(render_element(&Element::Paragraph(text("hello"))), "hello\n");
    assert_eq!(render_element(&Element::Paragraph(Text { text: vec![] })), "\n");
}

#[test]
fn image_with_and_without_caption() {
    let bare = Element::Image { src: b"a.png".to_vec(), alt: b"an A".to_vec(), caption: None };
    assert_eq!(render_element(&bare), "Image: an A (a.png)\n");
    let captioned =
        Element::Image { src: b"a.png".to_vec(), alt: b"an A".to_vec(), caption: Some(text("look")) };
    assert_eq!(render_element(&captioned), "Image: an A (a.png)\nCaption: look\n");
}

#[test]
fn group_puts_an_empty_line_between_blocks() {
    let group = Element::Group {
        content: vec![
            Element::Paragraph(text("one")),
            Element::Paragraph(text("two")),
            Element::Paragraph(text("three")),
        ],
    };
    assert_eq!(render_element(&group), "one\n\ntwo\n\nthree\n");
    assert_eq!(render_element(&Element::Group { content: vec![] }), "");
    assert_eq!(render_element(&Element::Group { content: vec![Element::Paragraph(text("one"))] }), "one\n");
}

#[test]
fn gallery_puts_blocks_one_after_the_other() {
    let gallery = Element::Gallery {
        content: vec![
            Element::Image { src: b"a".to_vec(), alt: b"A".to_vec(), caption: None },
            Element::Group { content: vec![Element::Paragraph(text("x")), Element::Paragraph(text("y"))] },
        ],
    };
    assert_eq!(render_element(&gallery), "Image: A (a)\nx\n\ny\n");
}

#[test]
fn section_with_and_without_title() {
    let section = Section::Section {
        title: Some(b"Why".to_vec()),
        content: vec![Element::Paragraph(text("because")), Element::Paragraph(text("so"))],
    };
    assert_eq!(render_section(&section), "# Why\nbecause\n\nso\n");
    assert_eq!(render_section(&Section::Section { title: None, content: vec![] }), "# Section\n");
}

#[test]
fn criteria_list_their_items() {
    let criteria = Section::Criteria {
        title: None,
        items: vec![
            TitleDesc { title: b"Fast".to_vec(), description: text("very") },
            TitleDesc { title: b"Small".to_vec(), description: text("tiny") },
        ],
    };
    assert_eq!(render_section(&criteria), "# Design Criteria\n## Fast\nvery\n\n## Small\ntiny\n");
    assert_eq!(
        render_section(&Section::Criteria { title: Some(b"Goals".to_vec()), items: vec![] }),
        "# Goals"
    );
}

#[test]
fn project_page() {
    let project = Project {
        name: b"Robot".to_vec(),
        url: b"robot".to_vec(),
        description: b"A robot.".to_vec(),
        date: b"Spring 2021".to_vec(),
        content: Content {
            sections: vec![
                Section::Section { title: None, content: vec![Element::Paragraph(text("It walks."))] },
                Section::Criteria {
                    title: None,
                    items: vec![TitleDesc { title: b"Walks".to_vec(), description: text("yes") }],
                },
            ],
        },
        thumbnail: b"robot.png".to_vec(),
        skills: Skills { skills: vec![b"CAD".to_vec(), b"C".to_vec()] },
        priority: 3,
    };
    let page = String::from_utf8(project.to_text(b"example.org")).unwrap();
    assert_eq!(
        page,
        "=== Robot ===\nhttps://example.org/projects/robot\nA robot.\nSpring 2021\nSkills:\n- CAD\n- C\n=============\n\n# Section\nIt walks.\n\n\n# Design Criteria\n## Walks\nyes\n\n\n"
    );
}

#[test]
fn the_rule_is_as_long_as_the_title_line() {
    let project = Project {
        name: "caf\u{e9}".as_bytes().to_vec(),
        url: Vec::new(),
        description: Vec::new(),
        date: Vec::new(),
        content: Content { sections: vec![] },
        thumbnail: Vec::new(),
        skills: Skills { skills: vec![] },
        priority: 0,
    };
    let page = String::from_utf8(project.to_text(b"d")).unwrap();
    // The name has five bytes: the rule has thirteen signs.
    assert_eq!(page, "=== caf\u{e9} ===\nhttps://d/projects/\n\n\nSkills:\n=============\n\n");
}
