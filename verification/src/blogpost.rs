//! The blog posts of the site, and their pages as plain text.
use crate::project::{LINK_HEAD, PROJECTS_PATH, TITLE_END, TITLE_MARK};
use crate::text::{push_bytes, push_decimal, push_str, decimal, LF};
use vstd::prelude::*;
use vstd::string::StringSliceAdditionalSpecFns;

verus! {

/// What fences a block of code.
pub const CODE_FENCE: &'static str = "```";

/// What stands in the place of a footnote that was left in the body.
pub const STRAY_FOOTNOTE: &'static str = "BUG: footnote";

pub const FOOTNOTES_HEAD: &'static str = "Footnotes:";

pub const FOOTNOTE_MARK: &'static str = "[^";

pub const FOOTNOTE_MARK_END: &'static str = "]: ";

pub const INLINE_IMAGE_HEAD: &'static str = "<Image: ";

/// A day of the calendar.
#[derive(Clone, Copy, Debug, PartialEq, Eq, Structural)]
pub struct PostDate {
    pub year: i32,
    pub month: u32,
    pub day: u32,
}

/// What kind of post a post is.
#[derive(Clone, Copy, Debug, PartialEq, Eq, Structural)]
pub enum Tag {
    /// Notes.
    Note,
}

/// A piece of a paragraph.
#[derive(Debug, PartialEq, Eq)]
pub enum InlineElement {
    Text { content: Vec<u8> },
    Emph { text: Vec<InlineElement> },
    Strong { text: Vec<InlineElement> },
    Link { href: Vec<u8>, text: Vec<InlineElement> },
    InlineCode { content: Vec<u8> },
    /// A reference to the footnote `tag`, which is the `number`-th
    /// footnote that the post refers to.
    FootnoteRef { number: usize, tag: Vec<u8> },
    Image { src: Vec<u8>, alt: Vec<u8> },
}

/// A block of a post.
#[derive(Debug, PartialEq, Eq)]
pub enum Element {
    Paragraph { text: Vec<InlineElement> },
    Code { lang: Option<Vec<u8>>, content: Vec<u8> },
    /// What a footnote says. The footnotes of a post are kept apart from
    /// its body.
    Footnote { tag: Vec<u8>, body: Vec<Element> },
}

/// A footnote: the tag by which the body refers to it, and what it says.
#[derive(Debug, PartialEq, Eq)]
pub struct Footnote {
    pub tag: Vec<u8>,
    pub body: Vec<Element>,
}

/// The body of a post and its footnotes, in the order in which the body
/// refers to them.
#[derive(Debug, PartialEq, Eq)]
pub struct Content {
    pub content: Vec<Element>,
    pub footnotes: Vec<Footnote>,
}

/// A blog post.
#[derive(Debug, PartialEq, Eq)]
pub struct BlogPost {
    pub title: Vec<u8>,
    /// The name under which the post is reached.
    pub url: Vec<u8>,
    /// The day on which the post appeared.
    pub date: PostDate,
    /// Posts whose visibility is not positive are hidden.
    pub visibility: i32,
    pub tags: Vec<Tag>,
    pub content: Content,
}

/// A piece of a paragraph, as mathematics.
pub enum InlineView {
    Text { content: Seq<u8> },
    Emph { text: Seq<InlineView> },
    Strong { text: Seq<InlineView> },
    Link { href: Seq<u8>, text: Seq<InlineView> },
    InlineCode { content: Seq<u8> },
    FootnoteRef { number: nat, tag: Seq<u8> },
    Image { src: Seq<u8>, alt: Seq<u8> },
}

/// A block of a post, as mathematics.
pub enum ElementView {
    Paragraph { text: Seq<InlineView> },
    Code { lang: Option<Seq<u8>>, content: Seq<u8> },
    Footnote { tag: Seq<u8>, body: Seq<ElementView> },
}

/// The piece as mathematics.
pub open spec fn inline_view(piece: InlineElement) -> InlineView
    decreases piece,
{
    match piece {
        InlineElement::Text { content } => InlineView::Text { content: content@ },
        InlineElement::Emph { text } => InlineView::Emph { text: inline_views(text@) },
        InlineElement::Strong { text } => InlineView::Strong { text: inline_views(text@) },
        InlineElement::Link { href, text } => InlineView::Link {
            href: href@,
            text: inline_views(text@),
        },
        InlineElement::InlineCode { content } => InlineView::InlineCode { content: content@ },
        InlineElement::FootnoteRef { number, tag } => InlineView::FootnoteRef {
            number: number as nat,
            tag: tag@,
        },
        InlineElement::Image { src, alt } => InlineView::Image { src: src@, alt: alt@ },
    }
}

/// The pieces as mathematics.
pub open spec fn inline_views(pieces: Seq<InlineElement>) -> Seq<InlineView>
    decreases pieces,
{
    if pieces.len() == 0 {
        Seq::empty()
    } else {
        inline_views(pieces.drop_last()).push(inline_view(pieces.last()))
    }
}

/// The block as mathematics.
pub open spec fn element_view(block: Element) -> ElementView
    decreases block,
{
    match block {
        Element::Paragraph { text } => ElementView::Paragraph { text: inline_views(text@) },
        Element::Code { lang, content } => ElementView::Code {
            lang: match lang {
                Some(lang) => Some(lang@),
                None => None,
            },
            content: content@,
        },
        Element::Footnote { tag, body } => ElementView::Footnote {
            tag: tag@,
            body: element_views(body@),
        },
    }
}

/// The blocks as mathematics.
pub open spec fn element_views(blocks: Seq<Element>) -> Seq<ElementView>
    decreases blocks,
{
    if blocks.len() == 0 {
        Seq::empty()
    } else {
        element_views(blocks.drop_last()).push(element_view(blocks.last()))
    }
}

/// The pieces as plain text, one after the other.
pub open spec fn text_of_inlines(pieces: Seq<InlineElement>) -> Seq<u8>
    decreases pieces,
{
    if pieces.len() == 0 {
        Seq::empty()
    } else {
        text_of_inlines(pieces.drop_last()) + pieces.last().spec_text()
    }
}

/// The blocks as plain text, a line feed after each.
pub open spec fn text_of_elements(blocks: Seq<Element>) -> Seq<u8>
    decreases blocks,
{
    if blocks.len() == 0 {
        Seq::empty()
    } else {
        text_of_elements(blocks.drop_last()) + blocks.last().spec_text() + seq![LF]
    }
}

/// The first `n` footnotes as plain text: each after its number, counted
/// from 1, between `[^` and `]: `.
pub open spec fn text_of_footnotes(notes: Seq<Footnote>, n: nat) -> Seq<u8>
    decreases n,
{
    if n == 0 {
        Seq::empty()
    } else {
        text_of_footnotes(notes, (n - 1) as nat) + FOOTNOTE_MARK.spec_bytes() + decimal(n)
            + FOOTNOTE_MARK_END.spec_bytes() + text_of_elements(notes[n - 1].body@)
    }
}

impl InlineElement {
    /// The piece as plain text: emphasis between underscores, strong
    /// emphasis between stars, a link as its text in square brackets and
    /// its target in round ones, code between backticks, a reference to
    /// a footnote as its number in square brackets, and an image as what
    /// it shows and where it is.
    pub open spec fn spec_text(self) -> Seq<u8>
        decreases self,
    {
        match self {
            InlineElement::Text { content } => content@,
            InlineElement::Emph { text } => seq![95u8] + text_of_inlines(text@) + seq![95u8],
            InlineElement::Strong { text } => seq![42u8] + text_of_inlines(text@) + seq![42u8],
            InlineElement::Link { href, text } => seq![91u8] + text_of_inlines(text@) + seq![
                93u8,
                40u8,
            ] + href@ + seq![41u8],
            InlineElement::InlineCode { content } => seq![96u8] + content@ + seq![96u8],
            InlineElement::FootnoteRef { number, tag } => seq![91u8] + decimal(number as nat)
                + seq![93u8],
            InlineElement::Image { src, alt } => INLINE_IMAGE_HEAD.spec_bytes() + alt@ + seq![
                32u8,
                40u8,
            ] + src@ + seq![41u8, 62u8],
        }
    }

    /// Appends the piece as plain text.
    pub fn push_text(&self, out: &mut Vec<u8>)
        ensures
            final(out)@ == old(out)@ + self.spec_text(),
        decreases self,
    {
        match self {
            InlineElement::Text { content } => {
                push_bytes(out, content.as_slice());
            },
            InlineElement::Emph { text } => {
                out.push(95);
                push_inlines(text, out);
                out.push(95);
                assert(out@ =~= old(out)@ + self.spec_text());
            },
            InlineElement::Strong { text } => {
                out.push(42);
                push_inlines(text, out);
                out.push(42);
                assert(out@ =~= old(out)@ + self.spec_text());
            },
            InlineElement::Link { href, text } => {
                out.push(91);
                push_inlines(text, out);
                out.push(93);
                out.push(40);
                push_bytes(out, href.as_slice());
                out.push(41);
                assert(out@ =~= old(out)@ + self.spec_text());
            },
            InlineElement::InlineCode { content } => {
                out.push(96);
                push_bytes(out, content.as_slice());
                out.push(96);
                assert(out@ =~= old(out)@ + self.spec_text());
            },
            InlineElement::FootnoteRef { number, tag } => {
                out.push(91);
                push_decimal(out, *number as u64);
                out.push(93);
                assert(out@ =~= old(out)@ + self.spec_text());
            },
            InlineElement::Image { src, alt } => {
                push_str(out, INLINE_IMAGE_HEAD);
                push_bytes(out, alt.as_slice());
                out.push(32);
                out.push(40);
                push_bytes(out, src.as_slice());
                out.push(41);
                out.push(62);
                assert(out@ =~= old(out)@ + self.spec_text());
            },
        }
    }
}

/// Appends the pieces as plain text.
pub fn push_inlines(pieces: &Vec<InlineElement>, out: &mut Vec<u8>)
    ensures
        final(out)@ == old(out)@ + text_of_inlines(pieces@),
    decreases pieces,
{
    let n = pieces.len();
    let mut i: usize = 0;
    assert(pieces@.take(0) =~= Seq::<InlineElement>::empty());
    assert(out@ =~= old(out)@ + text_of_inlines(pieces@.take(0)));
    while i < n
        invariant
            i <= n,
            n == pieces@.len(),
            out@ == old(out)@ + text_of_inlines(pieces@.take(i as int)),
        decreases n - i,
    {
        proof {
            let upto = pieces@.take(i + 1);
            assert(upto.drop_last() =~= pieces@.take(i as int));
            assert(upto.last() == pieces@[i as int]);
        }
        pieces[i].push_text(out);
        i += 1;
        assert(out@ =~= old(out)@ + text_of_inlines(pieces@.take(i as int)));
    }
    assert(pieces@.take(n as int) =~= pieces@);
}

impl Element {
    /// The block as plain text. A paragraph ends its line, code stands
    /// between fences, and a footnote that was left in the body is
    /// marked as a fault.
    pub open spec fn spec_text(self) -> Seq<u8> {
        match self {
            Element::Paragraph { text } => text_of_inlines(text@) + seq![LF],
            Element::Code { lang, content } => CODE_FENCE.spec_bytes() + seq![LF] + content@
                + seq![LF] + CODE_FENCE.spec_bytes() + seq![LF],
            Element::Footnote { tag, body } => STRAY_FOOTNOTE.spec_bytes() + seq![LF],
        }
    }

    /// Appends the block as plain text.
    pub fn push_text(&self, out: &mut Vec<u8>)
        ensures
            final(out)@ == old(out)@ + self.spec_text(),
    {
        match self {
            Element::Paragraph { text } => {
                push_inlines(text, out);
                out.push(LF);
            },
            Element::Code { lang, content } => {
                push_str(out, CODE_FENCE);
                out.push(LF);
                push_bytes(out, content.as_slice());
                out.push(LF);
                push_str(out, CODE_FENCE);
                out.push(LF);
                assert(out@ =~= old(out)@ + self.spec_text());
            },
            Element::Footnote { tag, body } => {
                push_str(out, STRAY_FOOTNOTE);
                out.push(LF);
            },
        }
    }
}

/// Appends the blocks as plain text, a line feed after each.
pub fn push_elements(blocks: &Vec<Element>, out: &mut Vec<u8>)
    ensures
        final(out)@ == old(out)@ + text_of_elements(blocks@),
{
    let n = blocks.len();
    let mut i: usize = 0;
    assert(blocks@.take(0) =~= Seq::<Element>::empty());
    assert(out@ =~= old(out)@ + text_of_elements(blocks@.take(0)));
    while i < n
        invariant
            i <= n,
            n == blocks@.len(),
            out@ == old(out)@ + text_of_elements(blocks@.take(i as int)),
        decreases n - i,
    {
        proof {
            let upto = blocks@.take(i + 1);
            assert(upto.drop_last() =~= blocks@.take(i as int));
            assert(upto.last() == blocks@[i as int]);
        }
        blocks[i].push_text(out);
        out.push(LF);
        i += 1;
        assert(out@ =~= old(out)@ + text_of_elements(blocks@.take(i as int)));
    }
    assert(blocks@.take(n as int) =~= blocks@);
}

impl Content {
    /// Body and footnotes as plain text: the blocks, an empty line, and,
    /// where there are footnotes, a heading and the numbered footnotes.
    pub open spec fn spec_text(self) -> Seq<u8> {
        text_of_elements(self.content@) + seq![LF] + if self.footnotes@.len() > 0 {
            FOOTNOTES_HEAD.spec_bytes() + seq![LF] + text_of_footnotes(
                self.footnotes@,
                self.footnotes@.len(),
            )
        } else {
            Seq::empty()
        }
    }

    /// Appends body and footnotes as plain text.
    pub fn push_text(&self, out: &mut Vec<u8>)
        ensures
            final(out)@ == old(out)@ + self.spec_text(),
    {
        push_elements(&self.content, out);
        out.push(LF);
        let n = self.footnotes.len();
        if n > 0 {
            push_str(out, FOOTNOTES_HEAD);
            out.push(LF);
            let ghost head = out@;
            let mut i: usize = 0;
            assert(out@ =~= head + text_of_footnotes(self.footnotes@, 0));
            while i < n
                invariant
                    i <= n,
                    n == self.footnotes@.len(),
                    out@ == head + text_of_footnotes(self.footnotes@, i as nat),
                decreases n - i,
            {
                push_str(out, FOOTNOTE_MARK);
                push_decimal(out, (i as u64) + 1);
                push_str(out, FOOTNOTE_MARK_END);
                push_elements(&self.footnotes[i].body, out);
                i += 1;
                assert(out@ =~= head + text_of_footnotes(self.footnotes@, i as nat));
            }
            assert(out@ =~= old(out)@ + self.spec_text());
        } else {
            assert(out@ =~= old(out)@ + self.spec_text());
        }
    }
}

/// The day `year`-`month`-`day` as chrono writes it under the pattern
/// `%Y%m%d`, or nothing where chrono knows no such day.
pub uninterp spec fn date_stamp(year: i32, month: u32, day: u32) -> Option<Seq<u8>>;

/// The day `year`-`month`-`day` as chrono writes a date, or nothing where
/// chrono knows no such day.
pub uninterp spec fn date_text(year: i32, month: u32, day: u32) -> Option<Seq<u8>>;

/// Calls chrono's `NaiveDate::from_ymd_opt` and, on the date that it
/// gives, `NaiveDate::format` with the pattern `%Y%m%d`. The contract
/// gives the outcome its name, `date_stamp`, and claims nothing else: not
/// which days exist nor how the digits come out.
#[verifier::external_body]
fn format_date_stamp(year: i32, month: u32, day: u32) -> (r: Option<Vec<u8>>)
    ensures
        match r {
            Some(stamp) => date_stamp(year, month, day) == Some(stamp@),
            None => date_stamp(year, month, day) is None,
        },
{
    match chrono::NaiveDate::from_ymd_opt(year, month, day) {
        Some(date) => Some(date.format("%Y%m%d").to_string().into_bytes()),
        None => None,
    }
}

/// Calls chrono's `NaiveDate::from_ymd_opt` and, on the date that it
/// gives, the `Display` of `NaiveDate` through `to_string`. The contract
/// gives the outcome its name, `date_text`, and claims nothing else.
#[verifier::external_body]
fn format_date_text(year: i32, month: u32, day: u32) -> (r: Option<Vec<u8>>)
    ensures
        match r {
            Some(text) => date_text(year, month, day) == Some(text@),
            None => date_text(year, month, day) is None,
        },
{
    match chrono::NaiveDate::from_ymd_opt(year, month, day) {
        Some(date) => Some(date.to_string().into_bytes()),
        None => None,
    }
}

impl PostDate {
    /// The day as the name of a post's file begins with it.
    pub open spec fn spec_stamp(self) -> Option<Seq<u8>> {
        date_stamp(self.year, self.month, self.day)
    }

    /// The day as a post's page shows it.
    pub open spec fn spec_text(self) -> Option<Seq<u8>> {
        date_text(self.year, self.month, self.day)
    }

    /// Whether the calendar has the day, as far as writing it shows.
    pub open spec fn is_day(self) -> bool {
        self.spec_stamp() is Some && self.spec_text() is Some
    }

    /// The day as the name of a post's file begins with it, if the
    /// calendar has the day.
    pub fn stamp(&self) -> (r: Option<Vec<u8>>)
        ensures
            match r {
                Some(stamp) => self.spec_stamp() == Some(stamp@),
                None => self.spec_stamp() is None,
            },
    {
        format_date_stamp(self.year, self.month, self.day)
    }

    /// The day as a post's page shows it, if the calendar has the day.
    pub fn text(&self) -> (r: Option<Vec<u8>>)
        ensures
            match r {
                Some(text) => self.spec_text() == Some(text@),
                None => self.spec_text() is None,
            },
    {
        format_date_text(self.year, self.month, self.day)
    }
}

impl BlogPost {
    /// The post's page as plain text, on the site `domain`, with `date`
    /// for its day: the title between marks, where the post is found,
    /// its day, an empty line, body and footnotes.
    pub open spec fn spec_text_with(self, domain: Seq<u8>, date: Seq<u8>) -> Seq<u8> {
        TITLE_MARK.spec_bytes() + self.title@ + TITLE_END.spec_bytes() + seq![LF]
            + LINK_HEAD.spec_bytes() + domain + PROJECTS_PATH.spec_bytes() + self.url@ + seq![LF]
            + date + seq![LF] + seq![LF] + self.content.spec_text() + seq![LF]
    }

    /// The post's page as plain text, on the site `domain`.
    pub open spec fn spec_text(self, domain: Seq<u8>) -> Seq<u8> {
        self.spec_text_with(domain, self.date.spec_text()->0)
    }

    /// The post's page as plain text, on the site `domain`. There is
    /// none where the calendar does not have the post's day.
    pub fn to_text(&self, domain: &[u8]) -> (r: Option<Vec<u8>>)
        ensures
            match r {
                Some(text) => self.date.spec_text() is Some && text@ == self.spec_text(domain@),
                None => self.date.spec_text() is None,
            },
    {
        match self.date.text() {
            Some(date) => Some(self.text_with(domain, date.as_slice())),
            None => None,
        }
    }

    /// The post's page as plain text, on the site `domain`, with `date`
    /// for its day.
    pub fn text_with(&self, domain: &[u8], date: &[u8]) -> (r: Vec<u8>)
        ensures
            r@ == self.spec_text_with(domain@, date@),
    {
        let mut out: Vec<u8> = Vec::new();
        push_str(&mut out, TITLE_MARK);
        push_bytes(&mut out, self.title.as_slice());
        push_str(&mut out, TITLE_END);
        out.push(LF);
        push_str(&mut out, LINK_HEAD);
        push_bytes(&mut out, domain);
        push_str(&mut out, PROJECTS_PATH);
        push_bytes(&mut out, self.url.as_slice());
        out.push(LF);
        push_bytes(&mut out, date);
        out.push(LF);
        out.push(LF);
        self.content.push_text(&mut out);
        out.push(LF);
        assert(out@ =~= self.spec_text_with(domain@, date@));
        out
    }
}

} // verus!
