//! The footnotes of a blog post: they are taken out of the body, the
//! references to them are numbered in the order in which the body makes
//! them, and each reference must have its footnote and each footnote its
//! reference.
use crate::blogpost::{element_view, element_views, inline_view, inline_views};
use crate::blogpost::{Content, Element, ElementView, Footnote, InlineElement, InlineView};
use crate::markup::{parse_blocks, Event, ParseError, Parsed};
use crate::text::{bytes_eq, copy_range, rows};
use vstd::prelude::*;

verus! {

/// The piece with its references numbered, and the tags that have been
/// referred to, in order: `seen` and those of the piece. Each reference
/// gets the number of tags that have been referred to, itself included.
pub open spec fn number_inline(piece: InlineView, seen: Seq<Seq<u8>>) -> (InlineView, Seq<Seq<u8>>)
    decreases piece,
{
    match piece {
        InlineView::FootnoteRef { number, tag } => (
            InlineView::FootnoteRef { number: seen.len() + 1, tag },
            seen.push(tag),
        ),
        InlineView::Emph { text } => (
            InlineView::Emph { text: number_inlines(text, seen).0 },
            number_inlines(text, seen).1,
        ),
        InlineView::Strong { text } => (
            InlineView::Strong { text: number_inlines(text, seen).0 },
            number_inlines(text, seen).1,
        ),
        InlineView::Link { href, text } => (
            InlineView::Link { href, text: number_inlines(text, seen).0 },
            number_inlines(text, seen).1,
        ),
        _ => (piece, seen),
    }
}

/// The pieces with their references numbered, one piece after the other.
pub open spec fn number_inlines(pieces: Seq<InlineView>, seen: Seq<Seq<u8>>) -> (
    Seq<InlineView>,
    Seq<Seq<u8>>,
)
    decreases pieces,
{
    if pieces.len() == 0 {
        (Seq::empty(), seen)
    } else {
        let before = number_inlines(pieces.drop_last(), seen);
        let last = number_inline(pieces.last(), before.1);
        (before.0.push(last.0), last.1)
    }
}

/// What stands in the place of a piece that has been taken out: a text
/// without a byte.
fn no_piece() -> (r: InlineElement)
    ensures
        r matches InlineElement::Text { content } && content@ == Seq::<u8>::empty(),
{
    InlineElement::Text { content: Vec::new() }
}

/// What stands in the place of a block that has been taken out: a
/// paragraph without a piece.
fn no_block() -> (r: Element)
    ensures
        r matches Element::Paragraph { text } && text@ == Seq::<InlineElement>::empty(),
{
    Element::Paragraph { text: Vec::new() }
}

/// Takes the piece at `i` out of `pieces`.
fn take_piece(pieces: &mut Vec<InlineElement>, i: usize) -> (r: InlineElement)
    requires
        i < old(pieces)@.len(),
    ensures
        r == old(pieces)@[i as int],
        final(pieces)@.len() == old(pieces)@.len(),
        forall|k: int|
            0 <= k < old(pieces)@.len() && k != i ==> final(pieces)@[k] == old(pieces)@[k],
{
    let mut taken = no_piece();
    core::mem::swap(&mut pieces[i], &mut taken);
    taken
}

/// Takes the block at `i` out of `blocks`.
fn take_block(blocks: &mut Vec<Element>, i: usize) -> (r: Element)
    requires
        i < old(blocks)@.len(),
    ensures
        r == old(blocks)@[i as int],
        final(blocks)@.len() == old(blocks)@.len(),
        forall|k: int|
            0 <= k < old(blocks)@.len() && k != i ==> final(blocks)@[k] == old(blocks)@[k],
{
    let mut taken = no_block();
    core::mem::swap(&mut blocks[i], &mut taken);
    taken
}

/// Numbers the references of `piece`. `seen` holds the tags that have
/// been referred to, and gets those of the piece.
pub fn number_references(piece: InlineElement, seen: &mut Vec<Vec<u8>>) -> (r: InlineElement)
    ensures
        inline_view(r) == number_inline(inline_view(piece), rows(old(seen)@)).0,
        rows(final(seen)@) == number_inline(inline_view(piece), rows(old(seen)@)).1,
    decreases piece,
{
    match piece {
        InlineElement::FootnoteRef { number, tag } => {
            let copy = copy_range(tag.as_slice(), 0, tag.len());
            assert(copy@ =~= tag@);
            seen.push(copy);
            assert(rows(seen@) =~= rows(old(seen)@).push(tag@));
            InlineElement::FootnoteRef { number: seen.len(), tag }
        },
        InlineElement::Emph { text } => InlineElement::Emph {
            text: number_all_references(text, seen),
        },
        InlineElement::Strong { text } => InlineElement::Strong {
            text: number_all_references(text, seen),
        },
        InlineElement::Link { href, text } => InlineElement::Link {
            href,
            text: number_all_references(text, seen),
        },
        InlineElement::Text { content } => {
            assert(rows(seen@) =~= rows(old(seen)@));
            InlineElement::Text { content }
        },
        InlineElement::InlineCode { content } => InlineElement::InlineCode { content },
        InlineElement::Image { src, alt } => InlineElement::Image { src, alt },
    }
}

/// Numbers the references of `pieces`, one piece after the other.
pub fn number_all_references(pieces: Vec<InlineElement>, seen: &mut Vec<Vec<u8>>) -> (r: Vec<
    InlineElement,
>)
    ensures
        inline_views(r@) == number_inlines(inline_views(pieces@), rows(old(seen)@)).0,
        rows(final(seen)@) == number_inlines(inline_views(pieces@), rows(old(seen)@)).1,
    decreases pieces,
{
    let ghost whole = pieces@;
    let ghost first = rows(seen@);
    let mut rest = pieces;
    let mut numbered: Vec<InlineElement> = Vec::new();
    let n = rest.len();
    let mut i: usize = 0;
    assert(whole.take(0) =~= Seq::<InlineElement>::empty());
    while i < n
        invariant
            i <= n,
            n == whole.len(),
            whole == pieces@,
            rest@.len() == n,
            forall|k: int| i <= k < n ==> rest@[k] == whole[k],
            inline_views(numbered@) == number_inlines(inline_views(whole.take(i as int)), first).0,
            rows(seen@) == number_inlines(inline_views(whole.take(i as int)), first).1,
        decreases n - i,
    {
        let piece = take_piece(&mut rest, i);
        proof {
            let upto = whole.take(i + 1);
            assert(upto.drop_last() =~= whole.take(i as int));
            assert(upto.last() == whole[i as int]);
            assert(inline_views(upto).drop_last() =~= inline_views(whole.take(i as int)));
        }
        let done = number_references(piece, seen);
        proof {
            assert(numbered@.push(done).drop_last() =~= numbered@);
        }
        numbered.push(done);
        i += 1;
    }
    assert(whole.take(n as int) =~= whole);
    numbered
}

/// A footnote as mathematics: its tag and what it says.
pub open spec fn footnote_views(notes: Seq<Footnote>) -> Seq<(Seq<u8>, Seq<ElementView>)> {
    Seq::new(notes.len(), |i: int| (notes[i].tag@, element_views(notes[i].body@)))
}

/// The tags of the footnotes.
pub open spec fn tags_of(notes: Seq<(Seq<u8>, Seq<ElementView>)>) -> Seq<Seq<u8>> {
    Seq::new(notes.len(), |i: int| notes[i].0)
}

/// A body whose footnotes have been set apart.
pub struct Walk {
    /// The blocks that are no footnotes, their references numbered.
    pub body: Seq<ElementView>,
    /// The footnotes, in the order in which they stood.
    pub notes: Seq<(Seq<u8>, Seq<ElementView>)>,
    /// The tags that the paragraphs of the body refer to, in order. What
    /// a footnote refers to does not count.
    pub refs: Seq<Seq<u8>>,
}

/// The body `content` with its footnotes set apart and the references of
/// its paragraphs numbered.
pub open spec fn walk(content: Seq<ElementView>) -> Walk
    decreases content.len(),
{
    if content.len() == 0 {
        Walk { body: Seq::empty(), notes: Seq::empty(), refs: Seq::empty() }
    } else {
        let before = walk(content.drop_last());
        match content.last() {
            ElementView::Footnote { tag, body } => Walk {
                notes: before.notes.push((tag, body)),
                ..before
            },
            ElementView::Paragraph { text } => Walk {
                body: before.body.push(
                    ElementView::Paragraph { text: number_inlines(text, before.refs).0 },
                ),
                refs: number_inlines(text, before.refs).1,
                ..before
            },
            ElementView::Code { .. } => Walk { body: before.body.push(content.last()), ..before },
        }
    }
}

/// The first position from `from` on and before `upto` at which `tag`
/// stands in `tags`, or `upto` where it stands at none.
pub open spec fn position(tags: Seq<Seq<u8>>, tag: Seq<u8>, from: int, upto: int) -> int
    decreases upto - from,
{
    if from >= upto {
        upto
    } else if tags[from] == tag {
        from
    } else {
        position(tags, tag, from + 1, upto)
    }
}

/// Whether `tag` stands among the first `upto` of `tags`.
pub open spec fn among(tags: Seq<Seq<u8>>, tag: Seq<u8>, upto: int) -> bool {
    position(tags, tag, 0, upto) < upto
}

/// The first position from `from` on whose tag stands in `tags` before
/// it, or the number of tags where no tag stands twice.
pub open spec fn first_duplicate(tags: Seq<Seq<u8>>, from: int) -> int
    decreases tags.len() - from,
{
    if from >= tags.len() {
        tags.len() as int
    } else if among(tags, tags[from], from) {
        from
    } else {
        first_duplicate(tags, from + 1)
    }
}

/// The first position from `from` on whose reference has no footnote of
/// its own: none of `tags` is its tag, or an earlier reference has the
/// same tag. The number of references where there is none such.
pub open spec fn first_missing(tags: Seq<Seq<u8>>, refs: Seq<Seq<u8>>, from: int) -> int
    decreases refs.len() - from,
{
    if from >= refs.len() {
        refs.len() as int
    } else if !among(tags, refs[from], tags.len() as int) || among(refs, refs[from], from) {
        from
    } else {
        first_missing(tags, refs, from + 1)
    }
}

/// The first position from `from` on whose footnote nothing refers to,
/// or the number of footnotes.
pub open spec fn first_unreferenced(tags: Seq<Seq<u8>>, refs: Seq<Seq<u8>>, from: int) -> int
    decreases tags.len() - from,
{
    if from >= tags.len() {
        tags.len() as int
    } else if !among(refs, tags[from], refs.len() as int) {
        from
    } else {
        first_unreferenced(tags, refs, from + 1)
    }
}

/// What taking the footnotes out of a body comes to.
pub enum Extracted {
    /// The body without its footnotes, and the footnotes in the order in
    /// which the body refers to them.
    Done { body: Seq<ElementView>, notes: Seq<(Seq<u8>, Seq<ElementView>)> },
    /// Two footnotes have this tag.
    Duplicate { tag: Seq<u8> },
    /// A reference with this tag has no footnote of its own.
    Missing { tag: Seq<u8> },
    /// Nothing refers to the footnote with this tag.
    Unreferenced { tag: Seq<u8> },
}

/// What taking the footnotes out of the body `content` comes to. Of what
/// can be wrong, a tag that two footnotes share is named first, then a
/// reference without a footnote of its own, then a footnote without a
/// reference; of several of a kind, the first.
pub open spec fn extract(content: Seq<ElementView>) -> Extracted {
    let w = walk(content);
    let tags = tags_of(w.notes);
    let refs = w.refs;
    if first_duplicate(tags, 0) < tags.len() {
        Extracted::Duplicate { tag: tags[first_duplicate(tags, 0)] }
    } else if first_missing(tags, refs, 0) < refs.len() {
        Extracted::Missing { tag: refs[first_missing(tags, refs, 0)] }
    } else if first_unreferenced(tags, refs, 0) < tags.len() {
        Extracted::Unreferenced { tag: tags[first_unreferenced(tags, refs, 0)] }
    } else {
        Extracted::Done {
            body: w.body,
            notes: Seq::new(
                refs.len(),
                |i: int| w.notes[position(tags, refs[i], 0, tags.len() as int)],
            ),
        }
    }
}

/// Why the footnotes of a body could not be taken out.
#[derive(Debug, PartialEq, Eq)]
pub enum FootnoteError {
    /// Two footnotes have this tag.
    Duplicate { tag: Vec<u8> },
    /// A reference with this tag has no footnote of its own.
    Missing { tag: Vec<u8> },
    /// Nothing refers to the footnote with this tag.
    Unreferenced { tag: Vec<u8> },
}

/// Where a tag stands between two positions.
pub proof fn lemma_position(tags: Seq<Seq<u8>>, tag: Seq<u8>, from: int, upto: int)
    requires
        0 <= from <= upto <= tags.len(),
    ensures
        from <= position(tags, tag, from, upto) <= upto,
        position(tags, tag, from, upto) < upto ==> tags[position(tags, tag, from, upto)] == tag,
        forall|k: int| from <= k < position(tags, tag, from, upto) ==> tags[k] != tag,
    decreases upto - from,
{
    if from < upto && tags[from] != tag {
        lemma_position(tags, tag, from + 1, upto);
    }
}

/// A tag that does not stand before `at` stands first where it stands
/// from `at` on.
pub proof fn lemma_position_skips(tags: Seq<Seq<u8>>, tag: Seq<u8>, at: int, upto: int)
    requires
        0 <= at <= upto <= tags.len(),
        forall|k: int| 0 <= k < at ==> tags[k] != tag,
    ensures
        position(tags, tag, 0, upto) == position(tags, tag, at, upto),
    decreases at,
{
    if at > 0 {
        lemma_position_skips(tags, tag, at - 1, upto);
    }
}

/// The first position before `upto` at which `tag` stands in `tags`.
fn find_tag(tags: &Vec<Vec<u8>>, tag: &[u8], upto: usize) -> (r: usize)
    requires
        upto <= tags@.len(),
    ensures
        r == position(rows(tags@), tag@, 0, upto as int),
        r <= upto,
{
    let mut i: usize = 0;
    while i < upto && !bytes_eq(tags[i].as_slice(), tag)
        invariant
            i <= upto <= tags@.len(),
            forall|k: int| 0 <= k < i ==> rows(tags@)[k] != tag@,
        decreases upto - i,
    {
        i += 1;
    }
    proof {
        lemma_position_skips(rows(tags@), tag@, i as int, upto as int);
    }
    i
}

/// A copy of the bytes of `v`.
fn copy_of(v: &Vec<u8>) -> (r: Vec<u8>)
    ensures
        r@ == v@,
{
    let r = copy_range(v.as_slice(), 0, v.len());
    assert(r@ =~= v@);
    r
}

/// Sets the footnotes of `content` apart and numbers the references of
/// its paragraphs. Returns the body, the footnotes, and the tags that
/// the body refers to.
fn set_apart(content: Vec<Element>) -> (r: (Vec<Element>, Vec<Footnote>, Vec<Vec<u8>>))
    ensures
        element_views(r.0@) == walk(element_views(content@)).body,
        footnote_views(r.1@) == walk(element_views(content@)).notes,
        rows(r.2@) == walk(element_views(content@)).refs,
{
    let ghost whole = content@;
    let mut rest = content;
    let mut body: Vec<Element> = Vec::new();
    let mut notes: Vec<Footnote> = Vec::new();
    let mut refs: Vec<Vec<u8>> = Vec::new();
    let n = rest.len();
    let mut i: usize = 0;
    assert(whole.take(0) =~= Seq::<Element>::empty());
    assert(footnote_views(notes@) =~= walk(element_views(whole.take(0))).notes);
    assert(rows(refs@) =~= walk(element_views(whole.take(0))).refs);
    while i < n
        invariant
            i <= n,
            n == whole.len(),
            rest@.len() == n,
            forall|k: int| i <= k < n ==> rest@[k] == whole[k],
            element_views(body@) == walk(element_views(whole.take(i as int))).body,
            footnote_views(notes@) == walk(element_views(whole.take(i as int))).notes,
            rows(refs@) == walk(element_views(whole.take(i as int))).refs,
        decreases n - i,
    {
        let block = take_block(&mut rest, i);
        let ghost before = walk(element_views(whole.take(i as int)));
        let ghost after = walk(element_views(whole.take(i + 1)));
        proof {
            let upto = whole.take(i + 1);
            assert(upto.drop_last() =~= whole.take(i as int));
            assert(upto.last() == whole[i as int]);
            assert(element_views(upto).drop_last() =~= element_views(whole.take(i as int)));
            assert(element_views(upto).last() == element_view(block));
        }
        match block {
            Element::Footnote { tag, body: said } => {
                let note = Footnote { tag, body: said };
                assert(footnote_views(notes@.push(note)) =~= footnote_views(notes@).push(
                    (note.tag@, element_views(note.body@)),
                ));
                notes.push(note);
                assert(after.body == before.body);
                assert(after.refs == before.refs);
            },
            Element::Paragraph { text } => {
                let numbered = Element::Paragraph { text: number_all_references(text, &mut refs) };
                proof {
                    assert(body@.push(numbered).drop_last() =~= body@);
                    assert(element_views(body@.push(numbered)) == element_views(body@).push(
                        element_view(numbered),
                    ));
                }
                body.push(numbered);
                assert(after.notes == before.notes);
            },
            Element::Code { lang, content } => {
                let same = Element::Code { lang, content };
                proof {
                    assert(body@.push(same).drop_last() =~= body@);
                    assert(element_views(body@.push(same)) == element_views(body@).push(
                        element_view(same),
                    ));
                    assert(element_view(same) == element_view(block));
                }
                body.push(same);
                assert(after.notes == before.notes);
                assert(after.refs == before.refs);
            },
        }
        i += 1;
    }
    assert(whole.take(n as int) =~= whole);
    (body, notes, refs)
}

/// Takes the footnotes out of the body `content` and numbers the
/// references to them in the order in which the paragraphs of the body
/// make them. Every reference must have a footnote of its own, and
/// every footnote a reference.
pub fn extract_footnotes(content: Vec<Element>) -> (r: Result<Content, FootnoteError>)
    ensures
        match r {
            Ok(post) => extract(element_views(content@)) == (Extracted::Done {
                body: element_views(post.content@),
                notes: footnote_views(post.footnotes@),
            }),
            Err(FootnoteError::Duplicate { tag }) => extract(element_views(content@))
                == (Extracted::Duplicate { tag: tag@ }),
            Err(FootnoteError::Missing { tag }) => extract(element_views(content@))
                == (Extracted::Missing { tag: tag@ }),
            Err(FootnoteError::Unreferenced { tag }) => extract(element_views(content@))
                == (Extracted::Unreferenced { tag: tag@ }),
        },
{
    let (body, mut notes, refs) = set_apart(content);
    let ghost w = walk(element_views(content@));
    let ghost all = footnote_views(notes@);
    let count = notes.len();
    let mut tags: Vec<Vec<u8>> = Vec::new();
    let mut k: usize = 0;
    while k < count
        invariant
            k <= count,
            count == notes@.len(),
            tags@.len() == k,
            forall|j: int| 0 <= j < k ==> tags@[j]@ == notes@[j].tag@,
        decreases count - k,
    {
        tags.push(copy_of(&notes[k].tag));
        k += 1;
    }
    assert(rows(tags@) =~= tags_of(all));
    let ghost t = rows(tags@);
    let ghost f = rows(refs@);
    let ghost views = element_views(content@);
    // No two footnotes share a tag.
    let mut d: usize = 0;
    while d < count
        invariant
            d <= count,
            count == tags@.len(),
            t == rows(tags@),
            views == element_views(content@),
            t == tags_of(walk(views).notes),
            first_duplicate(t, 0) == first_duplicate(t, d as int),
        decreases count - d,
    {
        if find_tag(&tags, tags[d].as_slice(), d) < d {
            return Err(FootnoteError::Duplicate { tag: copy_of(&tags[d]) });
        }
        d += 1;
    }
    // Every reference has a footnote of its own.
    let asked = refs.len();
    let mut m: usize = 0;
    while m < asked
        invariant
            m <= asked,
            asked == refs@.len(),
            count == tags@.len(),
            t == rows(tags@),
            f == rows(refs@),
            views == element_views(content@),
            t == tags_of(walk(views).notes),
            f == walk(views).refs,
            first_duplicate(t, 0) == count,
            first_missing(t, f, 0) == first_missing(t, f, m as int),
            forall|j: int|
                0 <= j < m ==> among(t, #[trigger] f[j], count as int) && !among(f, f[j], j),
        decreases asked - m,
    {
        if find_tag(&tags, refs[m].as_slice(), count) >= count || find_tag(
            &refs,
            refs[m].as_slice(),
            m,
        ) < m {
            return Err(FootnoteError::Missing { tag: copy_of(&refs[m]) });
        }
        m += 1;
    }
    // Every footnote is referred to.
    let mut u: usize = 0;
    while u < count
        invariant
            u <= count,
            asked == refs@.len(),
            count == tags@.len(),
            t == rows(tags@),
            f == rows(refs@),
            views == element_views(content@),
            t == tags_of(walk(views).notes),
            f == walk(views).refs,
            first_duplicate(t, 0) == count,
            first_missing(t, f, 0) == asked,
            first_unreferenced(t, f, 0) == first_unreferenced(t, f, u as int),
        decreases count - u,
    {
        if find_tag(&refs, tags[u].as_slice(), asked) >= asked {
            return Err(FootnoteError::Unreferenced { tag: copy_of(&tags[u]) });
        }
        u += 1;
    }
    // The footnotes in the order of the references.
    let mut ordered: Vec<Footnote> = Vec::new();
    let ghost start = notes@;
    let mut i: usize = 0;
    while i < asked
        invariant
            i <= asked,
            asked == refs@.len(),
            count == tags@.len(),
            count == notes@.len(),
            start.len() == count,
            all == footnote_views(start),
            t == rows(tags@),
            t == tags_of(all),
            f == rows(refs@),
            first_duplicate(t, 0) == count,
            forall|j: int|
                0 <= j < asked ==> among(t, #[trigger] f[j], count as int) && !among(f, f[j], j),
            forall|p: int|
                0 <= p < count ==> (#[trigger] notes@[p] == start[p] || among(f, t[p], i as int)),
            ordered@.len() == i,
            forall|j: int|
                0 <= j < i ==> (#[trigger] ordered@[j]) == start[position(
                        t,
                        f[j],
                        0,
                        count as int,
                    )],
        decreases asked - i,
    {
        let p = find_tag(&tags, refs[i].as_slice(), count);
        proof {
            lemma_position(t, f[i as int], 0, count as int);
            assert(among(t, f[i as int], count as int));
            // The footnote at `p` has not been taken: no earlier
            // reference has its tag.
            if among(f, t[p as int], i as int) {
                lemma_position(f, t[p as int], 0, i as int);
                let e = position(f, t[p as int], 0, i as int);
                assert(f[e] == f[i as int]);
                assert(!among(f, f[i as int], i as int));
                lemma_position(f, f[i as int], 0, i as int);
            }
            assert(notes@[p as int] == start[p as int]);
        }
        let mut taken = Footnote { tag: Vec::new(), body: Vec::new() };
        let ghost earlier = ordered@;
        core::mem::swap(&mut notes[p], &mut taken);
        assert(taken == start[p as int]);
        ordered.push(taken);
        proof {
            assert(ordered@[i as int] == start[p as int]);
            assert forall|j: int| 0 <= j < i + 1 implies (#[trigger] ordered@[j]) == start[position(
                t,
                f[j],
                0,
                count as int,
            )] by {
                if j < i {
                    assert(ordered@[j] == earlier[j]);
                }
            }
            assert forall|q: int| 0 <= q < count implies (#[trigger] notes@[q] == start[q] || among(
                f,
                t[q],
                i + 1,
            )) by {
                if q == p {
                    // This footnote's tag is that of the reference at `i`.
                    lemma_position(f, t[q], 0, i + 1);
                    if !among(f, t[q], i + 1) {
                        assert(f[i as int] != t[q]);
                    }
                } else if !(notes@[q] == start[q]) {
                    lemma_position(f, t[q], 0, i as int);
                    lemma_position(f, t[q], 0, i + 1);
                    let e = position(f, t[q], 0, i as int);
                    if !among(f, t[q], i + 1) {
                        assert(f[e] != t[q]);
                    }
                }
            }
        }
        i += 1;
    }
    proof {
        let wanted = Seq::new(asked as nat, |j: int| all[position(t, f[j], 0, count as int)]);
        assert forall|j: int| 0 <= j < asked implies footnote_views(ordered@)[j] == wanted[j] by {
            lemma_position(t, f[j], 0, count as int);
            assert(among(t, f[j], count as int));
        }
        assert(footnote_views(ordered@) =~= wanted);
    }
    Ok(Content { content: body, footnotes: ordered })
}

/// Why the events that a parser of markup found are no post.
#[derive(Debug, PartialEq, Eq)]
pub enum BodyError {
    /// The events are no body.
    Markup(ParseError),
    /// The body's footnotes and its references to them do not match.
    Footnotes(FootnoteError),
}

/// What reading a post from events comes to.
pub enum Read {
    Post { body: Seq<ElementView>, notes: Seq<(Seq<u8>, Seq<ElementView>)> },
    Markup(ParseError),
    Footnotes(Extracted),
}

/// What reading a post from `events` comes to: the blocks are read from
/// the first event on, and the footnotes are taken out of them. Events
/// after the blocks are not looked at.
pub open spec fn read_post(events: Seq<Event>) -> Read {
    match parse_blocks(events, 0) {
        Parsed::Failed(e) => Read::Markup(e),
        Parsed::Done { items, next } => match extract(items) {
            Extracted::Done { body, notes } => Read::Post { body, notes },
            wrong => Read::Footnotes(wrong),
        },
    }
}

impl Content {
    /// Reads a post from what a parser of its markup found.
    pub fn from_events(events: &Vec<Event>) -> (r: Result<Content, BodyError>)
        ensures
            match r {
                Ok(post) => read_post(events@) == (Read::Post {
                    body: element_views(post.content@),
                    notes: footnote_views(post.footnotes@),
                }),
                Err(BodyError::Markup(e)) => read_post(events@) == Read::Markup(e),
                Err(BodyError::Footnotes(FootnoteError::Duplicate { tag })) => read_post(events@)
                    == Read::Footnotes(Extracted::Duplicate { tag: tag@ }),
                Err(BodyError::Footnotes(FootnoteError::Missing { tag })) => read_post(events@)
                    == Read::Footnotes(Extracted::Missing { tag: tag@ }),
                Err(BodyError::Footnotes(FootnoteError::Unreferenced { tag })) => read_post(events@)
                    == Read::Footnotes(Extracted::Unreferenced { tag: tag@ }),
            },
    {
        let mut blocks: Vec<Element> = Vec::new();
        match Element::parse_many(events, 0, &mut blocks) {
            Err(e) => {
                return Err(BodyError::Markup(e));
            },
            Ok(_) => {},
        }
        assert(element_views(Seq::<Element>::empty()) =~= Seq::<ElementView>::empty());
        assert(element_views(blocks@) =~= parse_blocks(events@, 0)->items);
        match extract_footnotes(blocks) {
            Ok(post) => Ok(post),
            Err(e) => Err(BodyError::Footnotes(e)),
        }
    }
}

} // verus!
