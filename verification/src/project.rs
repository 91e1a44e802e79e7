//! The projects of the site, and their pages as plain text.
use crate::text::{push_bytes, push_repeat, push_str, repeat, LF};
use vstd::prelude::*;
use vstd::string::StringSliceAdditionalSpecFns;

verus! {

pub const TITLE_MARK: &'static str = "=== ";

pub const TITLE_END: &'static str = " ===";

pub const LINK_HEAD: &'static str = "https://";

pub const PROJECTS_PATH: &'static str = "/projects/";

pub const SKILLS_HEAD: &'static str = "Skills:";

pub const SKILL_MARK: &'static str = "- ";

pub const SECTION_MARK: &'static str = "# ";

pub const ITEM_MARK: &'static str = "## ";

/// The title of a section that has none.
pub const SECTION_TITLE: &'static str = "Section";

/// The title of a list of design criteria that has none.
pub const CRITERIA_TITLE: &'static str = "Design Criteria";

pub const IMAGE_HEAD: &'static str = "Image: ";

pub const CAPTION_HEAD: &'static str = "Caption: ";

/// A piece of running text: words, or a link around further pieces.
#[derive(Debug, PartialEq, Eq)]
pub enum TextElement {
    /// A link. What stands before and after it is part of it, so that a
    /// link can stand against a bracket or a full stop.
    Link { href: Vec<u8>, leading_space: Vec<u8>, trailing_space: Vec<u8>, text: Vec<TextElement> },
    Text(Vec<u8>),
}

/// Running text.
#[derive(Debug, PartialEq, Eq)]
pub struct Text {
    pub text: Vec<TextElement>,
}

/// A title with what is said under it.
#[derive(Debug, PartialEq, Eq)]
pub struct TitleDesc {
    pub title: Vec<u8>,
    pub description: Text,
}

/// What a project took to make.
#[derive(Debug, PartialEq, Eq)]
pub struct Skills {
    pub skills: Vec<Vec<u8>>,
}

/// A block of a project's page.
#[derive(Debug, PartialEq, Eq)]
pub enum Element {
    /// Blocks that follow each other, an empty line between them.
    Group { content: Vec<Element> },
    /// Blocks of equal weight, one after the other.
    Gallery { content: Vec<Element> },
    Paragraph(Text),
    Image { src: Vec<u8>, alt: Vec<u8>, caption: Option<Text> },
}

/// A section of a project's page.
#[derive(Debug, PartialEq, Eq)]
pub enum Section {
    /// Blocks under a title.
    Section { title: Option<Vec<u8>>, content: Vec<Element> },
    /// The criteria that the design had to meet, each with its title.
    Criteria { title: Option<Vec<u8>>, items: Vec<TitleDesc> },
}

/// The body of a project's page.
#[derive(Debug, PartialEq, Eq)]
pub struct Content {
    pub sections: Vec<Section>,
}

/// A project.
#[derive(Debug, PartialEq, Eq)]
pub struct Project {
    pub name: Vec<u8>,
    /// The name under which the project is reached.
    pub url: Vec<u8>,
    pub description: Vec<u8>,
    pub date: Vec<u8>,
    pub content: Content,
    pub thumbnail: Vec<u8>,
    pub skills: Skills,
    /// Projects are shown by falling priority, and those whose priority
    /// is not positive are hidden.
    pub priority: i32,
}

/// What stands before and after a link that says nothing else: a space.
pub fn space() -> (r: Vec<u8>)
    ensures
        r@ == seq![32u8],
{
    let mut r: Vec<u8> = Vec::new();
    r.push(32);
    r
}

/// The pieces as plain text, one after the other.
pub open spec fn text_of_pieces(pieces: Seq<TextElement>) -> Seq<u8>
    decreases pieces,
{
    if pieces.len() == 0 {
        Seq::empty()
    } else {
        text_of_pieces(pieces.drop_last()) + pieces.last().spec_text()
    }
}

/// The blocks as plain text, one after the other.
pub open spec fn text_of_blocks(blocks: Seq<Element>) -> Seq<u8>
    decreases blocks,
{
    if blocks.len() == 0 {
        Seq::empty()
    } else {
        text_of_blocks(blocks.drop_last()) + blocks.last().spec_text()
    }
}

/// The blocks as plain text, a line feed before each but the first.
pub open spec fn text_of_spaced_blocks(blocks: Seq<Element>) -> Seq<u8>
    decreases blocks,
{
    if blocks.len() == 0 {
        Seq::empty()
    } else if blocks.len() == 1 {
        blocks.last().spec_text()
    } else {
        text_of_spaced_blocks(blocks.drop_last()) + seq![LF] + blocks.last().spec_text()
    }
}

/// The criteria as plain text: for each an empty line's end, its title as
/// a heading, and what is said under it.
pub open spec fn text_of_items(items: Seq<TitleDesc>) -> Seq<u8>
    decreases items.len(),
{
    if items.len() == 0 {
        Seq::empty()
    } else {
        text_of_items(items.drop_last()) + seq![LF] + ITEM_MARK.spec_bytes() + items.last().title@
            + seq![LF] + items.last().description.spec_text() + seq![LF]
    }
}

/// The sections as plain text, an empty line after each.
pub open spec fn text_of_sections(sections: Seq<Section>) -> Seq<u8>
    decreases sections.len(),
{
    if sections.len() == 0 {
        Seq::empty()
    } else {
        text_of_sections(sections.drop_last()) + sections.last().spec_text() + seq![LF, LF]
    }
}

/// The skills as plain text, one per line, each after a dash.
pub open spec fn text_of_skills(skills: Seq<Vec<u8>>) -> Seq<u8>
    decreases skills.len(),
{
    if skills.len() == 0 {
        Seq::empty()
    } else {
        text_of_skills(skills.drop_last()) + SKILL_MARK.spec_bytes() + skills.last()@ + seq![LF]
    }
}

/// The title of a section, or `default` where it has none.
pub open spec fn title_or(title: Option<Vec<u8>>, default: Seq<u8>) -> Seq<u8> {
    match title {
        Some(title) => title@,
        None => default,
    }
}

impl TextElement {
    /// The piece as plain text. A link is written as its text in square
    /// brackets and its target in round ones.
    pub open spec fn spec_text(self) -> Seq<u8>
        decreases self,
    {
        match self {
            TextElement::Link { href, leading_space, trailing_space, text } => leading_space@
                + seq![91u8] + text_of_pieces(text@) + seq![93u8, 40u8] + href@ + seq![41u8]
                + trailing_space@,
            TextElement::Text(words) => words@,
        }
    }

    /// Appends the piece as plain text.
    pub fn push_text(&self, out: &mut Vec<u8>)
        ensures
            final(out)@ == old(out)@ + self.spec_text(),
        decreases self,
    {
        match self {
            TextElement::Link { href, leading_space, trailing_space, text } => {
                push_bytes(out, leading_space.as_slice());
                out.push(91);
                push_pieces(text, out);
                out.push(93);
                out.push(40);
                push_bytes(out, href.as_slice());
                out.push(41);
                push_bytes(out, trailing_space.as_slice());
                assert(out@ =~= old(out)@ + self.spec_text());
            },
            TextElement::Text(words) => {
                push_bytes(out, words.as_slice());
            },
        }
    }
}

/// Appends the pieces as plain text.
pub fn push_pieces(pieces: &Vec<TextElement>, out: &mut Vec<u8>)
    ensures
        final(out)@ == old(out)@ + text_of_pieces(pieces@),
    decreases pieces,
{
    let n = pieces.len();
    let mut i: usize = 0;
    assert(pieces@.take(0) =~= Seq::<TextElement>::empty());
    assert(out@ =~= old(out)@ + text_of_pieces(pieces@.take(0)));
    while i < n
        invariant
            i <= n,
            n == pieces@.len(),
            out@ == old(out)@ + text_of_pieces(pieces@.take(i as int)),
        decreases n - i,
    {
        proof {
            let upto = pieces@.take(i + 1);
            assert(upto.drop_last() =~= pieces@.take(i as int));
            assert(upto.last() == pieces@[i as int]);
        }
        pieces[i].push_text(out);
        i += 1;
        assert(out@ =~= old(out)@ + text_of_pieces(pieces@.take(i as int)));
    }
    assert(pieces@.take(n as int) =~= pieces@);
}

impl Text {
    /// The text as plain text.
    pub open spec fn spec_text(self) -> Seq<u8> {
        text_of_pieces(self.text@)
    }

    /// Appends the text as plain text.
    pub fn push_text(&self, out: &mut Vec<u8>)
        ensures
            final(out)@ == old(out)@ + self.spec_text(),
    {
        push_pieces(&self.text, out);
    }
}

impl Element {
    /// The block as plain text. A paragraph ends its line. An image is
    /// named by what it shows and where it is, and its caption follows on
    /// a line of its own.
    pub open spec fn spec_text(self) -> Seq<u8>
        decreases self,
    {
        match self {
            Element::Group { content } => text_of_spaced_blocks(content@),
            Element::Gallery { content } => text_of_blocks(content@),
            Element::Paragraph(text) => text.spec_text() + seq![LF],
            Element::Image { src, alt, caption } => IMAGE_HEAD.spec_bytes() + alt@ + seq![
                32u8,
                40u8,
            ] + src@ + seq![41u8, LF] + match caption {
                Some(caption) => CAPTION_HEAD.spec_bytes() + caption.spec_text() + seq![LF],
                None => Seq::empty(),
            },
        }
    }

    /// Appends the block as plain text.
    pub fn push_text(&self, out: &mut Vec<u8>)
        ensures
            final(out)@ == old(out)@ + self.spec_text(),
        decreases self,
    {
        match self {
            Element::Group { content } => {
                push_spaced_blocks(content, out);
            },
            Element::Gallery { content } => {
                push_blocks(content, out);
            },
            Element::Paragraph(text) => {
                text.push_text(out);
                out.push(LF);
                assert(out@ =~= old(out)@ + self.spec_text());
            },
            Element::Image { src, alt, caption } => {
                push_str(out, IMAGE_HEAD);
                push_bytes(out, alt.as_slice());
                out.push(32);
                out.push(40);
                push_bytes(out, src.as_slice());
                out.push(41);
                out.push(LF);
                match caption {
                    Some(caption) => {
                        push_str(out, CAPTION_HEAD);
                        caption.push_text(out);
                        out.push(LF);
                    },
                    None => {},
                }
                assert(out@ =~= old(out)@ + self.spec_text());
            },
        }
    }
}

/// Appends the blocks as plain text, one after the other.
pub fn push_blocks(blocks: &Vec<Element>, out: &mut Vec<u8>)
    ensures
        final(out)@ == old(out)@ + text_of_blocks(blocks@),
    decreases blocks,
{
    let n = blocks.len();
    let mut i: usize = 0;
    assert(blocks@.take(0) =~= Seq::<Element>::empty());
    assert(out@ =~= old(out)@ + text_of_blocks(blocks@.take(0)));
    while i < n
        invariant
            i <= n,
            n == blocks@.len(),
            out@ == old(out)@ + text_of_blocks(blocks@.take(i as int)),
        decreases n - i,
    {
        proof {
            let upto = blocks@.take(i + 1);
            assert(upto.drop_last() =~= blocks@.take(i as int));
            assert(upto.last() == blocks@[i as int]);
        }
        blocks[i].push_text(out);
        i += 1;
        assert(out@ =~= old(out)@ + text_of_blocks(blocks@.take(i as int)));
    }
    assert(blocks@.take(n as int) =~= blocks@);
}

/// Appends the blocks as plain text, a line feed before each but the
/// first.
pub fn push_spaced_blocks(blocks: &Vec<Element>, out: &mut Vec<u8>)
    ensures
        final(out)@ == old(out)@ + text_of_spaced_blocks(blocks@),
    decreases blocks,
{
    let n = blocks.len();
    let mut i: usize = 0;
    assert(blocks@.take(0) =~= Seq::<Element>::empty());
    assert(out@ =~= old(out)@ + text_of_spaced_blocks(blocks@.take(0)));
    while i < n
        invariant
            i <= n,
            n == blocks@.len(),
            out@ == old(out)@ + text_of_spaced_blocks(blocks@.take(i as int)),
        decreases n - i,
    {
        proof {
            let upto = blocks@.take(i + 1);
            assert(upto.drop_last() =~= blocks@.take(i as int));
            assert(upto.last() == blocks@[i as int]);
            assert(upto.len() == i + 1);
        }
        if i > 0 {
            out.push(LF);
        }
        blocks[i].push_text(out);
        i += 1;
        assert(out@ =~= old(out)@ + text_of_spaced_blocks(blocks@.take(i as int)));
    }
    assert(blocks@.take(n as int) =~= blocks@);
}

impl Section {
    /// The section as plain text: its title as a heading, then its
    /// blocks with empty lines between them, or its criteria.
    pub open spec fn spec_text(self) -> Seq<u8> {
        match self {
            Section::Section { title, content } => SECTION_MARK.spec_bytes() + title_or(
                title,
                SECTION_TITLE.spec_bytes(),
            ) + seq![LF] + text_of_spaced_blocks(content@),
            Section::Criteria { title, items } => SECTION_MARK.spec_bytes() + title_or(
                title,
                CRITERIA_TITLE.spec_bytes(),
            ) + text_of_items(items@),
        }
    }

    /// Appends the section as plain text.
    pub fn push_text(&self, out: &mut Vec<u8>)
        ensures
            final(out)@ == old(out)@ + self.spec_text(),
    {
        match self {
            Section::Section { title, content } => {
                push_str(out, SECTION_MARK);
                match title {
                    Some(title) => push_bytes(out, title.as_slice()),
                    None => push_str(out, SECTION_TITLE),
                }
                out.push(LF);
                push_spaced_blocks(content, out);
                assert(out@ =~= old(out)@ + self.spec_text());
            },
            Section::Criteria { title, items } => {
                push_str(out, SECTION_MARK);
                match title {
                    Some(title) => push_bytes(out, title.as_slice()),
                    None => push_str(out, CRITERIA_TITLE),
                }
                let ghost head = out@;
                let n = items.len();
                let mut i: usize = 0;
                assert(items@.take(0) =~= Seq::<TitleDesc>::empty());
                assert(out@ =~= head + text_of_items(items@.take(0)));
                while i < n
                    invariant
                        i <= n,
                        n == items@.len(),
                        out@ == head + text_of_items(items@.take(i as int)),
                    decreases n - i,
                {
                    proof {
                        let upto = items@.take(i + 1);
                        assert(upto.drop_last() =~= items@.take(i as int));
                        assert(upto.last() == items@[i as int]);
                    }
                    out.push(LF);
                    push_str(out, ITEM_MARK);
                    push_bytes(out, items[i].title.as_slice());
                    out.push(LF);
                    items[i].description.push_text(out);
                    out.push(LF);
                    i += 1;
                    assert(out@ =~= head + text_of_items(items@.take(i as int)));
                }
                assert(items@.take(n as int) =~= items@);
                assert(out@ =~= old(out)@ + self.spec_text());
            },
        }
    }
}

impl Content {
    /// The body as plain text: its sections, an empty line after each.
    pub open spec fn spec_text(self) -> Seq<u8> {
        text_of_sections(self.sections@)
    }

    /// Appends the body as plain text.
    pub fn push_text(&self, out: &mut Vec<u8>)
        ensures
            final(out)@ == old(out)@ + self.spec_text(),
    {
        let n = self.sections.len();
        let mut i: usize = 0;
        assert(self.sections@.take(0) =~= Seq::<Section>::empty());
        assert(out@ =~= old(out)@ + text_of_sections(self.sections@.take(0)));
        while i < n
            invariant
                i <= n,
                n == self.sections@.len(),
                out@ == old(out)@ + text_of_sections(self.sections@.take(i as int)),
            decreases n - i,
        {
            proof {
                let upto = self.sections@.take(i + 1);
                assert(upto.drop_last() =~= self.sections@.take(i as int));
                assert(upto.last() == self.sections@[i as int]);
            }
            self.sections[i].push_text(out);
            out.push(LF);
            out.push(LF);
            i += 1;
            assert(out@ =~= old(out)@ + text_of_sections(self.sections@.take(i as int)));
        }
        assert(self.sections@.take(n as int) =~= self.sections@);
    }
}

impl Project {
    /// The project's page as plain text, on the site `domain`: the name
    /// between marks, where the project is found, what it is and when it
    /// was made, its skills, a rule as long as the first line, and the
    /// body.
    pub open spec fn spec_text(self, domain: Seq<u8>) -> Seq<u8> {
        TITLE_MARK.spec_bytes() + self.name@ + TITLE_END.spec_bytes() + seq![LF]
            + LINK_HEAD.spec_bytes() + domain + PROJECTS_PATH.spec_bytes() + self.url@ + seq![LF]
            + self.description@ + seq![LF] + self.date@ + seq![LF] + SKILLS_HEAD.spec_bytes()
            + seq![LF] + text_of_skills(self.skills.skills@) + repeat(
            61u8,
            self.name@.len() + 8,
        ) + seq![LF, LF] + self.content.spec_text()
    }

    /// The project's page as plain text, on the site `domain`.
    pub fn to_text(&self, domain: &[u8]) -> (r: Vec<u8>)
        ensures
            r@ == self.spec_text(domain@),
    {
        let mut out: Vec<u8> = Vec::new();
        push_str(&mut out, TITLE_MARK);
        push_bytes(&mut out, self.name.as_slice());
        push_str(&mut out, TITLE_END);
        out.push(LF);
        push_str(&mut out, LINK_HEAD);
        push_bytes(&mut out, domain);
        push_str(&mut out, PROJECTS_PATH);
        push_bytes(&mut out, self.url.as_slice());
        out.push(LF);
        push_bytes(&mut out, self.description.as_slice());
        out.push(LF);
        push_bytes(&mut out, self.date.as_slice());
        out.push(LF);
        push_str(&mut out, SKILLS_HEAD);
        out.push(LF);
        let ghost head = out@;
        let skills = &self.skills.skills;
        let n = skills.len();
        let mut i: usize = 0;
        assert(skills@.take(0) =~= Seq::<Vec<u8>>::empty());
        assert(out@ =~= head + text_of_skills(skills@.take(0)));
        while i < n
            invariant
                i <= n,
                n == skills@.len(),
                out@ == head + text_of_skills(skills@.take(i as int)),
            decreases n - i,
        {
            proof {
                let upto = skills@.take(i + 1);
                assert(upto.drop_last() =~= skills@.take(i as int));
                assert(upto.last() == skills@[i as int]);
            }
            push_str(&mut out, SKILL_MARK);
            push_bytes(&mut out, skills[i].as_slice());
            out.push(LF);
            i += 1;
            assert(out@ =~= head + text_of_skills(skills@.take(i as int)));
        }
        assert(skills@.take(n as int) =~= skills@);
        push_repeat(&mut out, 61, self.name.len());
        push_repeat(&mut out, 61, 8);
        assert(repeat(61u8, self.name@.len()) + repeat(61u8, 8) =~= repeat(
            61u8,
            self.name@.len() + 8,
        ));
        out.push(LF);
        out.push(LF);
        self.content.push_text(&mut out);
        assert(out@ =~= self.spec_text(domain@));
        out
    }
}

} // verus!
