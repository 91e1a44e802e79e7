//! The body of a blog post, read from what a parser of its markup found:
//! a run of events, each the start or the end of a container, a piece of
//! text, or a mark.
use crate::blogpost::{element_view, element_views, inline_view, inline_views};
use crate::blogpost::{Element, ElementView, InlineElement, InlineView};
use crate::text::{copy_range, push_bytes};
use vstd::prelude::*;

verus! {

/// What can hold other events.
#[derive(Debug, PartialEq, Eq)]
pub enum Container {
    Paragraph,
    CodeBlock { language: Vec<u8> },
    Footnote { label: Vec<u8> },
    /// A link. `inline` says that its target stands where the link is.
    Link { url: Vec<u8>, inline: bool },
    Emphasis,
    Strong,
    Verbatim,
    /// An image. `inline` says that its source stands where the image is.
    Image { src: Vec<u8>, inline: bool },
    /// Any other container.
    Other,
}

/// What the parser of the markup found.
#[derive(Debug, PartialEq, Eq)]
pub enum Event {
    Start(Container),
    End(Container),
    /// Text, or a typographic mark as the text that stands for it.
    Text(Vec<u8>),
    FootnoteReference(Vec<u8>),
    Blankline,
    /// Any other event.
    Other,
}

/// Why the events are no body of a post.
#[derive(Clone, Copy, Debug, PartialEq, Eq, Structural)]
pub enum ParseError {
    /// The event at `at` should end the container that is open, and
    /// there is none or it does not.
    ExpectedEnd { at: usize },
    /// The code that begins at `at` is empty or holds more than text.
    InvalidCode { at: usize },
    /// The image whose description begins at `at` has none.
    MissingAlt { at: usize },
    /// The event at `at` is not one that a post may hold there.
    Unsupported { at: usize },
}

/// What reading from a position came to: the items that were read and
/// the position after them, or why nothing could be read.
pub enum Parsed<T> {
    Done { items: Seq<T>, next: int },
    Failed(ParseError),
}

/// Where the run of text events that begins at `pos` ends.
pub open spec fn text_run_end(events: Seq<Event>, pos: int) -> int
    decreases events.len() - pos,
{
    if 0 <= pos < events.len() && events[pos] is Text {
        text_run_end(events, pos + 1)
    } else {
        pos
    }
}

/// The text of the events from `from` up to, not including, `to`, which
/// are all text events.
pub open spec fn text_run(events: Seq<Event>, from: int, to: int) -> Seq<u8>
    decreases to - from,
{
    if to <= from {
        Seq::empty()
    } else {
        text_run(events, from, to - 1) + events[to - 1]->Text_0@
    }
}

/// Whether `end` ends a container of the kind of `start`. A link ends
/// any link and an image any image.
pub open spec fn ends(start: Container, end: Container) -> bool {
    match start {
        Container::Paragraph => end is Paragraph,
        Container::CodeBlock { .. } => end is CodeBlock,
        Container::Footnote { .. } => end is Footnote,
        Container::Link { .. } => end is Link,
        Container::Emphasis => end is Emphasis,
        Container::Strong => end is Strong,
        Container::Verbatim => end is Verbatim,
        Container::Image { .. } => end is Image,
        Container::Other => false,
    }
}

/// Whether the event at `pos` ends the container that `start` began.
pub open spec fn closes(events: Seq<Event>, pos: int, start: Container) -> bool {
    0 <= pos < events.len() && events[pos] is End && ends(start, events[pos]->End_0)
}

/// The run of text that is all that a container holds: the container
/// began before `pos` with `start`. Where the text is empty, `empty` says
/// why that will not do.
pub open spec fn parse_only_text(
    events: Seq<Event>,
    pos: int,
    start: Container,
    empty: ParseError,
) -> Result<(Seq<u8>, int), ParseError> {
    let end = text_run_end(events, pos);
    let text = text_run(events, pos, end);
    if text.len() == 0 {
        Err(empty)
    } else if closes(events, end, start) {
        Ok((text, end + 1))
    } else {
        Err(ParseError::ExpectedEnd { at: end as usize })
    }
}

/// The pieces of a paragraph that begin at `pos`, up to the end of the
/// container that holds them or of the events. A run of text is one
/// piece.
pub open spec fn parse_inlines(events: Seq<Event>, pos: int) -> Parsed<InlineView>
    decreases events.len() - pos, 1int,
{
    let at = text_run_end(events, pos);
    let lead = text_run(events, pos, at);
    let head = if lead.len() > 0 {
        seq![InlineView::Text { content: lead }]
    } else {
        Seq::empty()
    };
    if pos < 0 || at < pos || at >= events.len() || events[at] is End {
        Parsed::Done { items: head, next: at }
    } else {
        match parse_inline_at(events, at) {
            Parsed::Failed(e) => Parsed::Failed(e),
            Parsed::Done { items, next } => if next <= at || next > events.len() {
                Parsed::Failed(ParseError::Unsupported { at: at as usize })
            } else {
                match parse_inlines(events, next) {
                    Parsed::Failed(e) => Parsed::Failed(e),
                    Parsed::Done { items: rest, next: last } => Parsed::Done {
                        items: head + items + rest,
                        next: last,
                    },
                }
            },
        }
    }
}

/// The one piece that begins with the event at `at`, which is neither
/// text nor the end of a container. Emphasis, strong emphasis and links
/// whose target stands in the text hold further pieces; code holds text
/// and nothing else; an image whose source stands in the text holds its
/// description; a reference to a footnote stands alone and has no number
/// yet. Nothing else is a piece.
pub open spec fn parse_inline_at(events: Seq<Event>, at: int) -> Parsed<InlineView>
    decreases events.len() - at, 0int,
{
    if at < 0 || at >= events.len() {
        Parsed::Failed(ParseError::Unsupported { at: at as usize })
    } else {
        match events[at] {
            Event::Start(start) => match start {
                Container::Emphasis | Container::Strong | Container::Link { inline: true, .. } => {
                    match parse_inlines(events, at + 1) {
                        Parsed::Failed(e) => Parsed::Failed(e),
                        Parsed::Done { items, next } => if closes(events, next, start) {
                            Parsed::Done {
                                items: seq![
                                    match start {
                                        Container::Emphasis => InlineView::Emph { text: items },
                                        Container::Strong => InlineView::Strong { text: items },
                                        _ => InlineView::Link {
                                            href: start->url@,
                                            text: items,
                                        },
                                    },
                                ],
                                next: next + 1,
                            }
                        } else {
                            Parsed::Failed(ParseError::ExpectedEnd { at: next as usize })
                        },
                    }
                },
                Container::Verbatim => match parse_only_text(
                    events,
                    at + 1,
                    start,
                    ParseError::InvalidCode { at: (at + 1) as usize },
                ) {
                    Err(e) => Parsed::Failed(e),
                    Ok((content, next)) => Parsed::Done {
                        items: seq![InlineView::InlineCode { content }],
                        next,
                    },
                },
                Container::Image { src, inline: true } => match parse_only_text(
                    events,
                    at + 1,
                    start,
                    ParseError::MissingAlt { at: (at + 1) as usize },
                ) {
                    Err(e) => Parsed::Failed(e),
                    Ok((alt, next)) => Parsed::Done {
                        items: seq![InlineView::Image { src: src@, alt }],
                        next,
                    },
                },
                _ => Parsed::Failed(ParseError::Unsupported { at: at as usize }),
            },
            Event::FootnoteReference(tag) => Parsed::Done {
                items: seq![InlineView::FootnoteRef { number: 0, tag: tag@ }],
                next: at + 1,
            },
            _ => Parsed::Failed(ParseError::Unsupported { at: at as usize }),
        }
    }
}

/// The blocks that begin at `pos`, up to the end of the container that
/// holds them or of the events. Blank lines between blocks are passed
/// over.
pub open spec fn parse_blocks(events: Seq<Event>, pos: int) -> Parsed<ElementView>
    decreases events.len() - pos, 1int,
{
    if pos < 0 || pos >= events.len() || events[pos] is End {
        Parsed::Done { items: Seq::empty(), next: pos }
    } else if events[pos] is Blankline {
        parse_blocks(events, pos + 1)
    } else {
        match parse_block_at(events, pos) {
            Parsed::Failed(e) => Parsed::Failed(e),
            Parsed::Done { items, next } => if next <= pos || next > events.len() {
                Parsed::Failed(ParseError::Unsupported { at: pos as usize })
            } else {
                match parse_blocks(events, next) {
                    Parsed::Failed(e) => Parsed::Failed(e),
                    Parsed::Done { items: rest, next: last } => Parsed::Done {
                        items: items + rest,
                        next: last,
                    },
                }
            },
        }
    }
}

/// The one block that begins with the event at `at`: a paragraph of
/// pieces, a block of code, which holds text and nothing else and whose
/// language may be left out, or a footnote of blocks. Nothing else is a
/// block.
pub open spec fn parse_block_at(events: Seq<Event>, at: int) -> Parsed<ElementView>
    decreases events.len() - at, 0int,
{
    if at < 0 || at >= events.len() {
        Parsed::Failed(ParseError::Unsupported { at: at as usize })
    } else {
        match events[at] {
            Event::Start(start) => match start {
                Container::Paragraph => match parse_inlines(events, at + 1) {
                    Parsed::Failed(e) => Parsed::Failed(e),
                    Parsed::Done { items, next } => if closes(events, next, start) {
                        Parsed::Done {
                            items: seq![ElementView::Paragraph { text: items }],
                            next: next + 1,
                        }
                    } else {
                        Parsed::Failed(ParseError::ExpectedEnd { at: next as usize })
                    },
                },
                Container::CodeBlock { language } => match parse_only_text(
                    events,
                    at + 1,
                    start,
                    ParseError::InvalidCode { at: (at + 1) as usize },
                ) {
                    Err(e) => Parsed::Failed(e),
                    Ok((content, next)) => Parsed::Done {
                        items: seq![
                            ElementView::Code {
                                lang: if language@.len() == 0 {
                                    None
                                } else {
                                    Some(language@)
                                },
                                content,
                            },
                        ],
                        next,
                    },
                },
                Container::Footnote { label } => match parse_blocks(events, at + 1) {
                    Parsed::Failed(e) => Parsed::Failed(e),
                    Parsed::Done { items, next } => if closes(events, next, start) {
                        Parsed::Done {
                            items: seq![ElementView::Footnote { tag: label@, body: items }],
                            next: next + 1,
                        }
                    } else {
                        Parsed::Failed(ParseError::ExpectedEnd { at: next as usize })
                    },
                },
                _ => Parsed::Failed(ParseError::Unsupported { at: at as usize }),
            },
            _ => Parsed::Failed(ParseError::Unsupported { at: at as usize }),
        }
    }
}

/// A run of text that goes on from `pos` to `at` ends where the run from
/// `at` ends.
pub proof fn lemma_text_run_goes_on(events: Seq<Event>, pos: int, at: int)
    requires
        0 <= pos <= at <= events.len(),
        forall|k: int| pos <= k < at ==> events[k] is Text,
    ensures
        text_run_end(events, pos) == text_run_end(events, at),
    decreases at - pos,
{
    if pos < at {
        lemma_text_run_goes_on(events, pos + 1, at);
    }
}

/// A copy of the bytes of `v`.
fn copy_of(v: &Vec<u8>) -> (r: Vec<u8>)
    ensures
        r@ == v@,
{
    let r = copy_range(v.as_slice(), 0, v.len());
    assert(r@ =~= v@);
    r
}

/// Whether `event` ends a container of the kind of `start`.
fn is_end_of(event: &Event, start: &Container) -> (r: bool)
    ensures
        r == (event is End && ends(*start, event->End_0)),
{
    match event {
        Event::End(end) => match start {
            Container::Paragraph => match end {
                Container::Paragraph => true,
                _ => false,
            },
            Container::CodeBlock { .. } => match end {
                Container::CodeBlock { .. } => true,
                _ => false,
            },
            Container::Footnote { .. } => match end {
                Container::Footnote { .. } => true,
                _ => false,
            },
            Container::Link { .. } => match end {
                Container::Link { .. } => true,
                _ => false,
            },
            Container::Emphasis => match end {
                Container::Emphasis => true,
                _ => false,
            },
            Container::Strong => match end {
                Container::Strong => true,
                _ => false,
            },
            Container::Verbatim => match end {
                Container::Verbatim => true,
                _ => false,
            },
            Container::Image { .. } => match end {
                Container::Image { .. } => true,
                _ => false,
            },
            Container::Other => false,
        },
        _ => false,
    }
}

/// Whether the event at `pos` ends the container that `start` began.
fn is_closed(events: &Vec<Event>, pos: usize, start: &Container) -> (r: bool)
    ensures
        r == closes(events@, pos as int, *start),
{
    pos < events.len() && is_end_of(&events[pos], start)
}

/// The run of text that is all that the container holds which `start`
/// began before `pos`, and the position after the container's end.
fn read_only_text(events: &Vec<Event>, pos: usize, start: &Container, empty: ParseError) -> (r:
    Result<(Vec<u8>, usize), ParseError>)
    requires
        pos <= events@.len(),
    ensures
        match r {
            Ok((text, next)) => parse_only_text(events@, pos as int, *start, empty) == Ok::<
                (Seq<u8>, int),
                ParseError,
            >((text@, next as int)) && pos < next <= events@.len(),
            Err(e) => parse_only_text(events@, pos as int, *start, empty) == Err::<
                (Seq<u8>, int),
                ParseError,
            >(e),
        },
{
    let n = events.len();
    let (text, end) = InlineElement::parse_text(events, pos);
    if text.len() == 0 {
        Err(empty)
    } else if is_closed(events, end, start) {
        Ok((text, end + 1))
    } else {
        Err(ParseError::ExpectedEnd { at: end })
    }
}

impl InlineElement {
    /// The text of the run of text events that begins at `pos`, and where
    /// the run ends.
    pub fn parse_text(events: &Vec<Event>, pos: usize) -> (r: (Vec<u8>, usize))
        requires
            pos <= events@.len(),
        ensures
            r.1 == text_run_end(events@, pos as int),
            r.0@ == text_run(events@, pos as int, r.1 as int),
            pos <= r.1 <= events@.len(),
    {
        let mut text: Vec<u8> = Vec::new();
        let mut i: usize = pos;
        loop
            invariant
                pos <= i <= events@.len(),
                forall|k: int| pos <= k < i ==> events@[k] is Text,
                text@ == text_run(events@, pos as int, i as int),
            ensures
                i == events@.len() || !(events@[i as int] is Text),
            decreases events@.len() - i,
        {
            if i >= events.len() {
                break ;
            }
            match &events[i] {
                Event::Text(piece) => {
                    push_bytes(&mut text, piece.as_slice());
                },
                _ => {
                    break ;
                },
            }
            i += 1;
        }
        proof {
            lemma_text_run_goes_on(events@, pos as int, i as int);
        }
        (text, i)
    }

    /// Reads the pieces of a paragraph that begin at `pos` and appends them
    /// to `out`. Returns the position after them.
    pub fn parse_many(events: &Vec<Event>, pos: usize, out: &mut Vec<InlineElement>) -> (r: Result<
        usize,
        ParseError,
    >)
        requires
            pos <= events@.len(),
        ensures
            match r {
                Ok(next) => parse_inlines(events@, pos as int) matches Parsed::Done { items, next: n }
                    && n == next && pos <= next <= events@.len() && inline_views(final(out)@)
                    == inline_views(old(out)@) + items,
                Err(e) => parse_inlines(events@, pos as int) == Parsed::<InlineView>::Failed(e),
            },
        decreases events@.len() - pos, 1int,
    {
        let (lead, at) = InlineElement::parse_text(events, pos);
        let ghost lead_text = lead@;
        if lead.len() > 0 {
            let piece = InlineElement::Text { content: lead };
            proof {
                assert(out@.push(piece).drop_last() =~= out@);
                assert(inline_views(out@.push(piece)) == inline_views(out@).push(inline_view(piece)));
            }
            out.push(piece);
        }
        let ghost head = inline_views(out@);
        assert(head =~= inline_views(old(out)@) + (if lead_text.len() > 0 {
            seq![InlineView::Text { content: lead_text }]
        } else {
            Seq::<InlineView>::empty()
        }));
        if at >= events.len() {
            return Ok(at);
        }
        match &events[at] {
            Event::End(_) => {
                return Ok(at);
            },
            _ => {},
        }
        let next = match InlineElement::parse_one(events, at, out) {
            Ok(next) => next,
            Err(e) => {
                return Err(e);
            },
        };
        let ghost one = inline_views(out@);
        match InlineElement::parse_many(events, next, out) {
            Ok(last) => {
                proof {
                    let items = parse_inline_at(events@, at as int)->items;
                    let rest = parse_inlines(events@, next as int)->items;
                    assert(inline_views(out@) =~= inline_views(old(out)@) + ((if lead_text.len() > 0 {
                        seq![InlineView::Text { content: lead_text }]
                    } else {
                        Seq::<InlineView>::empty()
                    }) + items + rest));
                }
                Ok(last)
            },
            Err(e) => Err(e),
        }
    }

    /// Reads the one piece that begins with the event at `at`, which is
    /// neither text nor the end of a container, and appends it to `out`.
    /// Returns the position after it.
    pub fn parse_one(events: &Vec<Event>, at: usize, out: &mut Vec<InlineElement>) -> (r: Result<
        usize,
        ParseError,
    >)
        requires
            at < events@.len(),
        ensures
            match r {
                Ok(next) => parse_inline_at(events@, at as int) matches Parsed::Done { items, next: n }
                    && n == next && at < next <= events@.len() && inline_views(final(out)@)
                    == inline_views(old(out)@) + items,
                Err(e) => parse_inline_at(events@, at as int) == Parsed::<InlineView>::Failed(e),
            },
        decreases events@.len() - at, 0int,
    {
        let n = events.len();
        let piece: InlineElement;
        let next: usize;
        match &events[at] {
            Event::Start(start) => match start {
                Container::Emphasis => {
                    let mut text: Vec<InlineElement> = Vec::new();
                    let end = InlineElement::parse_many(events, at + 1, &mut text)?;
                    if !is_closed(events, end, start) {
                        return Err(ParseError::ExpectedEnd { at: end });
                    }
                    assert(inline_views(Seq::<InlineElement>::empty()) =~= Seq::<InlineView>::empty());
                    piece = InlineElement::Emph { text };
                    next = end + 1;
                },
                Container::Strong => {
                    let mut text: Vec<InlineElement> = Vec::new();
                    let end = InlineElement::parse_many(events, at + 1, &mut text)?;
                    if !is_closed(events, end, start) {
                        return Err(ParseError::ExpectedEnd { at: end });
                    }
                    assert(inline_views(Seq::<InlineElement>::empty()) =~= Seq::<InlineView>::empty());
                    piece = InlineElement::Strong { text };
                    next = end + 1;
                },
                Container::Link { url, inline } => {
                    if !*inline {
                        return Err(ParseError::Unsupported { at });
                    }
                    let mut text: Vec<InlineElement> = Vec::new();
                    let end = InlineElement::parse_many(events, at + 1, &mut text)?;
                    if !is_closed(events, end, start) {
                        return Err(ParseError::ExpectedEnd { at: end });
                    }
                    assert(inline_views(Seq::<InlineElement>::empty()) =~= Seq::<InlineView>::empty());
                    piece = InlineElement::Link { href: copy_of(url), text };
                    next = end + 1;
                },
                Container::Verbatim => {
                    let (content, end) = read_only_text(
                        events,
                        at + 1,
                        start,
                        ParseError::InvalidCode { at: at + 1 },
                    )?;
                    piece = InlineElement::InlineCode { content };
                    next = end;
                },
                Container::Image { src, inline } => {
                    if !*inline {
                        return Err(ParseError::Unsupported { at });
                    }
                    let (alt, end) = read_only_text(
                        events,
                        at + 1,
                        start,
                        ParseError::MissingAlt { at: at + 1 },
                    )?;
                    piece = InlineElement::Image { src: copy_of(src), alt };
                    next = end;
                },
                _ => {
                    return Err(ParseError::Unsupported { at });
                },
            },
            Event::FootnoteReference(tag) => {
                piece = InlineElement::FootnoteRef { number: 0, tag: copy_of(tag) };
                next = at + 1;
            },
            _ => {
                return Err(ParseError::Unsupported { at });
            },
        }
        proof {
            assert(out@.push(piece).drop_last() =~= out@);
            assert(inline_views(out@.push(piece)) =~= inline_views(out@) + seq![inline_view(piece)]);
        }
        out.push(piece);
        Ok(next)
    }
}

impl Element {
    /// Reads the blocks that begin at `pos` and appends them to `out`.
    /// Returns the position after them.
    pub fn parse_many(events: &Vec<Event>, pos: usize, out: &mut Vec<Element>) -> (r: Result<
        usize,
        ParseError,
    >)
        requires
            pos <= events@.len(),
        ensures
            match r {
                Ok(next) => parse_blocks(events@, pos as int) matches Parsed::Done { items, next: n }
                    && n == next && pos <= next <= events@.len() && element_views(final(out)@)
                    == element_views(old(out)@) + items,
                Err(e) => parse_blocks(events@, pos as int) == Parsed::<ElementView>::Failed(e),
            },
        decreases events@.len() - pos, 1int,
    {
        if pos >= events.len() {
            assert(element_views(out@) =~= element_views(out@) + Seq::<ElementView>::empty());
            return Ok(pos);
        }
        match &events[pos] {
            Event::End(_) => {
                assert(element_views(out@) =~= element_views(out@) + Seq::<ElementView>::empty());
                return Ok(pos);
            },
            Event::Blankline => {
                return Element::parse_many(events, pos + 1, out);
            },
            _ => {},
        }
        let next = match Element::parse_one(events, pos, out) {
            Ok(next) => next,
            Err(e) => {
                return Err(e);
            },
        };
        match Element::parse_many(events, next, out) {
            Ok(last) => {
                proof {
                    let items = parse_block_at(events@, pos as int)->items;
                    let rest = parse_blocks(events@, next as int)->items;
                    assert(element_views(out@) =~= element_views(old(out)@) + (items + rest));
                }
                Ok(last)
            },
            Err(e) => Err(e),
        }
    }

    /// Reads the one block that begins with the event at `at` and appends it
    /// to `out`. Returns the position after it.
    pub fn parse_one(events: &Vec<Event>, at: usize, out: &mut Vec<Element>) -> (r: Result<
        usize,
        ParseError,
    >)
        requires
            at < events@.len(),
        ensures
            match r {
                Ok(next) => parse_block_at(events@, at as int) matches Parsed::Done { items, next: n }
                    && n == next && at < next <= events@.len() && element_views(final(out)@)
                    == element_views(old(out)@) + items,
                Err(e) => parse_block_at(events@, at as int) == Parsed::<ElementView>::Failed(e),
            },
        decreases events@.len() - at, 0int,
    {
        let n = events.len();
        let block: Element;
        let next: usize;
        match &events[at] {
            Event::Start(start) => match start {
                Container::Paragraph => {
                    let mut text: Vec<InlineElement> = Vec::new();
                    let end = InlineElement::parse_many(events, at + 1, &mut text)?;
                    if !is_closed(events, end, start) {
                        return Err(ParseError::ExpectedEnd { at: end });
                    }
                    assert(inline_views(Seq::<InlineElement>::empty()) =~= Seq::<InlineView>::empty());
                    block = Element::Paragraph { text };
                    next = end + 1;
                },
                Container::CodeBlock { language } => {
                    let (content, end) = read_only_text(
                        events,
                        at + 1,
                        start,
                        ParseError::InvalidCode { at: at + 1 },
                    )?;
                    let lang = if language.len() == 0 {
                        None
                    } else {
                        Some(copy_of(language))
                    };
                    block = Element::Code { lang, content };
                    next = end;
                },
                Container::Footnote { label } => {
                    let mut body: Vec<Element> = Vec::new();
                    let end = Element::parse_many(events, at + 1, &mut body)?;
                    if !is_closed(events, end, start) {
                        return Err(ParseError::ExpectedEnd { at: end });
                    }
                    assert(element_views(Seq::<Element>::empty()) =~= Seq::<ElementView>::empty());
                    block = Element::Footnote { tag: copy_of(label), body };
                    next = end + 1;
                },
                _ => {
                    return Err(ParseError::Unsupported { at });
                },
            },
            _ => {
                return Err(ParseError::Unsupported { at });
            },
        }
        proof {
            assert(out@.push(block).drop_last() =~= out@);
            assert(element_views(out@.push(block)) =~= element_views(out@) + seq![element_view(block)]);
        }
        out.push(block);
        Ok(next)
    }
}

} // verus!
