//! What the markup parser makes of a document, piece by piece, and of a
//! document without a verse of the wanted chapter.
//!
//! To the scanner for one chapter a document is a row of pieces: verse
//! elements of the chapter, self-closing verse tags of the chapter, and
//! events that lie outside both. A verse element is an opening `verse` tag
//! that refers to the chapter, what stands between the tags, and the closing
//! `verse` tag. For such a document the parser returns one verse for each
//! element and each self-closing tag of the chapter, in the order of the
//! document, and nothing else.

use crate::catalog::code_book_id;
use crate::markup::{
    emitted_verse, opens_verse, osis_id, scan, scan_start, scan_step, tag_reference, text_of,
    verse_id, verses_of_events, ParseErrorView, ScanState, OSIS_ID_KEY, VERSE_TAG,
};
use crate::osis::osis_reference;
use crate::types::VerseView;
use crate::xml::{is_final, XmlAttributeView, XmlEventView, XmlTagView};
use vstd::prelude::*;

verus! {

// ---------------------------------------------------------------------------
// The tag of a verse
// ---------------------------------------------------------------------------

/// A `verse` tag whose only attribute is an `osisID` with the given text.
pub open spec fn element_tag(reference: Seq<char>) -> XmlTagView {
    XmlTagView {
        name: VERSE_TAG@,
        attributes: seq![Some(XmlAttributeView { key: OSIS_ID_KEY@, value: Some(reference) })],
    }
}

/// The verse number that a reference text names in the wanted chapter: the
/// text can be read as a reference, the catalog resolves its book code to
/// `book_id`, and its chapter is `chapter`.
pub open spec fn reference_verse_number(reference: Seq<char>, book_id: u32, chapter: u32) -> Option<
    u32,
> {
    match osis_reference(reference) {
        Some(r) => if code_book_id(r.book) == Some(book_id) && r.chapter == chapter {
            Some(r.verse)
        } else {
            None
        },
        None => None,
    }
}

/// A `verse` tag with an `osisID` refers to a verse of the wanted chapter
/// exactly if the text of the `osisID` names one.
pub proof fn lemma_element_tag(reference: Seq<char>, book_id: u32, chapter: u32)
    ensures
        opens_verse(element_tag(reference), book_id, chapter) == reference_verse_number(
            reference,
            book_id,
            chapter,
        ),
{
    let tag = element_tag(reference);
    assert(tag.attributes.drop_first().len() == 0);
    assert(osis_id(tag.attributes) == Some(reference));
    assert(tag_reference(tag) == osis_reference(reference));
}

// ---------------------------------------------------------------------------
// Pieces
// ---------------------------------------------------------------------------

/// An event that opens no verse of the wanted chapter.
pub open spec fn opens_nothing(event: XmlEventView, book_id: u32, chapter: u32) -> bool {
    match event {
        XmlEventView::Start(tag) | XmlEventView::Empty(tag) => opens_verse(tag, book_id, chapter)
            is None,
        _ => true,
    }
}

/// An event that may stand outside the verses of the wanted chapter: it does
/// not end the document and opens no verse of the chapter.
pub open spec fn stands_outside(event: XmlEventView, book_id: u32, chapter: u32) -> bool {
    !is_final(event) && opens_nothing(event, book_id, chapter)
}

/// An event that may stand inside a verse element of the wanted chapter: it
/// may stand outside, and it is no closing `verse` tag.
pub open spec fn stands_inside(event: XmlEventView, book_id: u32, chapter: u32) -> bool {
    &&& stands_outside(event, book_id, chapter)
    &&& !(event matches XmlEventView::End(name) && name == VERSE_TAG@)
}

/// A piece of a document, as the scanner for one chapter sees it.
pub ghost enum Piece {
    /// A verse element: the opening tag, the events between the tags, and
    /// the closing `verse` tag.
    Element { tag: XmlTagView, inside: Seq<XmlEventView> },
    /// A self-closing verse tag.
    Milestone { tag: XmlTagView },
    /// An event outside the verses of the chapter.
    Outside { event: XmlEventView },
}

/// The verse number of a piece: that of its tag for a verse element and for
/// a self-closing verse tag, none for an event outside.
pub open spec fn piece_number(piece: Piece, book_id: u32, chapter: u32) -> Option<u32> {
    match piece {
        Piece::Element { tag, inside } => opens_verse(tag, book_id, chapter),
        Piece::Milestone { tag } => opens_verse(tag, book_id, chapter),
        Piece::Outside { event } => None,
    }
}

/// A piece is what it is taken for by the scanner for the wanted chapter:
/// the tag of a verse element or of a self-closing verse tag refers to a
/// verse of the chapter, the events inside a verse element may stand there,
/// and an event outside may stand outside.
pub open spec fn fits(piece: Piece, book_id: u32, chapter: u32) -> bool {
    match piece {
        Piece::Element { tag, inside } => {
            &&& opens_verse(tag, book_id, chapter) is Some
            &&& forall|i: int|
                0 <= i < inside.len() ==> stands_inside(#[trigger] inside[i], book_id, chapter)
        },
        Piece::Milestone { tag } => opens_verse(tag, book_id, chapter) is Some,
        Piece::Outside { event } => stands_outside(event, book_id, chapter),
    }
}

/// Every piece of a row is what it is taken for.
pub open spec fn all_fit(pieces: Seq<Piece>, book_id: u32, chapter: u32) -> bool {
    forall|i: int| 0 <= i < pieces.len() ==> fits(#[trigger] pieces[i], book_id, chapter)
}

/// The events of one piece.
pub open spec fn piece_events(piece: Piece) -> Seq<XmlEventView> {
    match piece {
        Piece::Element { tag, inside } => seq![XmlEventView::Start(tag)] + inside + seq![
            XmlEventView::End(VERSE_TAG@),
        ],
        Piece::Milestone { tag } => seq![XmlEventView::Empty(tag)],
        Piece::Outside { event } => seq![event],
    }
}

/// The events of a row of pieces.
pub open spec fn pieces_events(pieces: Seq<Piece>) -> Seq<XmlEventView>
    decreases pieces.len(),
{
    if pieces.len() == 0 {
        Seq::empty()
    } else {
        piece_events(pieces[0]) + pieces_events(pieces.drop_first())
    }
}

/// The text of the events inside a verse element: the texts of its text
/// events, one after the other.
pub open spec fn gathered(inside: Seq<XmlEventView>) -> Seq<char>
    decreases inside.len(),
{
    if inside.len() == 0 {
        Seq::empty()
    } else {
        let first = match inside[0] {
            XmlEventView::Text(text) => text_of(text),
            _ => Seq::empty(),
        };
        first + gathered(inside.drop_first())
    }
}

/// The verse of a piece: a verse element gives the verse of its number with
/// the text gathered inside it, trimmed; a self-closing verse tag gives the
/// verse of its number with an empty text; an event outside gives none.
pub open spec fn piece_verse(
    piece: Piece,
    translation_id: Seq<char>,
    book_id: u32,
    chapter: u32,
) -> Option<VerseView> {
    match piece_number(piece, book_id, chapter) {
        Some(verse) => Some(
            emitted_verse(
                translation_id,
                book_id,
                chapter,
                verse,
                match piece {
                    Piece::Element { tag, inside } => gathered(inside),
                    _ => Seq::empty(),
                },
            ),
        ),
        None => None,
    }
}

/// The verses of a row of pieces: one for each piece that has a verse
/// number, in the order of the row.
pub open spec fn pieces_verses(
    pieces: Seq<Piece>,
    translation_id: Seq<char>,
    book_id: u32,
    chapter: u32,
) -> Seq<VerseView>
    decreases pieces.len(),
{
    if pieces.len() == 0 {
        Seq::empty()
    } else {
        let rest = pieces_verses(pieces.drop_first(), translation_id, book_id, chapter);
        match piece_verse(pieces[0], translation_id, book_id, chapter) {
            Some(verse) => seq![verse] + rest,
            None => rest,
        }
    }
}

// ---------------------------------------------------------------------------
// Scanning pieces
// ---------------------------------------------------------------------------

/// Scanning the events inside a verse element, with a verse open, adds
/// their text to the text of the open verse and changes nothing else.
pub proof fn lemma_scan_inside(
    state: ScanState,
    inside: Seq<XmlEventView>,
    rest: Seq<XmlEventView>,
    translation_id: Seq<char>,
    book_id: u32,
    chapter: u32,
)
    requires
        state.open is Some,
        forall|i: int| 0 <= i < inside.len() ==> stands_inside(#[trigger] inside[i], book_id, chapter),
    ensures
        scan(state, inside + rest, translation_id, book_id, chapter) == scan(
            ScanState {
                open: state.open,
                text: state.text + gathered(inside),
                verses: state.verses,
            },
            rest,
            translation_id,
            book_id,
            chapter,
        ),
    decreases inside.len(),
{
    if inside.len() == 0 {
        assert(inside + rest =~= rest);
        assert(state.text + gathered(inside) =~= state.text);
    } else {
        let event = inside[0];
        let tail = inside.drop_first();
        let all = inside + rest;
        assert(stands_inside(event, book_id, chapter));
        assert(all[0] == event);
        assert(all.drop_first() =~= tail + rest);
        let next = scan_step(state, event, translation_id, book_id, chapter);
        let first = match event {
            XmlEventView::Text(text) => text_of(text),
            _ => Seq::empty(),
        };
        assert(next.open == state.open);
        assert(next.verses == state.verses);
        assert(next.text =~= state.text + first);
        assert forall|i: int| 0 <= i < tail.len() implies stands_inside(
            #[trigger] tail[i],
            book_id,
            chapter,
        ) by {
            assert(tail[i] == inside[i + 1]);
        }
        lemma_scan_inside(next, tail, rest, translation_id, book_id, chapter);
        assert(next.text + gathered(tail) =~= state.text + gathered(inside));
    }
}

/// Scanning the events of one piece, with no verse open, adds the verse of
/// the piece, if it has one, and leaves no verse open. The state after the
/// piece is handed back.
pub proof fn lemma_scan_piece(
    state: ScanState,
    piece: Piece,
    rest: Seq<XmlEventView>,
    translation_id: Seq<char>,
    book_id: u32,
    chapter: u32,
) -> (after: ScanState)
    requires
        state.open is None,
        fits(piece, book_id, chapter),
    ensures
        scan(state, piece_events(piece) + rest, translation_id, book_id, chapter) == scan(
            after,
            rest,
            translation_id,
            book_id,
            chapter,
        ),
        after.open is None,
        after.verses == (match piece_verse(piece, translation_id, book_id, chapter) {
            Some(verse) => state.verses.push(verse),
            None => state.verses,
        }),
{
    let all = piece_events(piece) + rest;
    match piece {
        Piece::Element { tag, inside } => {
            let opening = XmlEventView::Start(tag);
            let closing = XmlEventView::End(VERSE_TAG@);
            let opened = scan_step(state, opening, translation_id, book_id, chapter);
            let after_tag = inside + (seq![closing] + rest);
            assert(all =~= seq![opening] + after_tag);
            assert(all[0] == opening);
            assert(all.drop_first() =~= after_tag);
            lemma_scan_inside(
                opened,
                inside,
                seq![closing] + rest,
                translation_id,
                book_id,
                chapter,
            );
            let filled = ScanState {
                open: opened.open,
                text: opened.text + gathered(inside),
                verses: opened.verses,
            };
            let last = seq![closing] + rest;
            assert(last[0] == closing);
            assert(last.drop_first() =~= rest);
            assert(filled.text =~= gathered(inside));
            scan_step(filled, closing, translation_id, book_id, chapter)
        },
        Piece::Milestone { tag } => {
            let event = XmlEventView::Empty(tag);
            assert(all[0] == event);
            assert(all.drop_first() =~= rest);
            scan_step(state, event, translation_id, book_id, chapter)
        },
        Piece::Outside { event } => {
            assert(all[0] == event);
            assert(all.drop_first() =~= rest);
            assert(scan_step(state, event, translation_id, book_id, chapter) == state);
            state
        },
    }
}

/// Scanning the events of a row of pieces, with no verse open, adds the
/// verses of the pieces, in their order, and leaves no verse open. The state
/// after the row is handed back.
pub proof fn lemma_scan_pieces(
    state: ScanState,
    pieces: Seq<Piece>,
    rest: Seq<XmlEventView>,
    translation_id: Seq<char>,
    book_id: u32,
    chapter: u32,
) -> (after: ScanState)
    requires
        state.open is None,
        all_fit(pieces, book_id, chapter),
    ensures
        scan(state, pieces_events(pieces) + rest, translation_id, book_id, chapter) == scan(
            after,
            rest,
            translation_id,
            book_id,
            chapter,
        ),
        after.open is None,
        after.verses == state.verses + pieces_verses(pieces, translation_id, book_id, chapter),
    decreases pieces.len(),
{
    if pieces.len() == 0 {
        assert(pieces_events(pieces) + rest =~= rest);
        assert(state.verses + pieces_verses(pieces, translation_id, book_id, chapter)
            =~= state.verses);
        state
    } else {
        let piece = pieces[0];
        let tail = pieces.drop_first();
        let after_piece = pieces_events(tail) + rest;
        assert(fits(piece, book_id, chapter));
        assert(pieces_events(pieces) + rest =~= piece_events(piece) + after_piece);
        let next = lemma_scan_piece(state, piece, after_piece, translation_id, book_id, chapter);
        assert forall|i: int| 0 <= i < tail.len() implies fits(
            #[trigger] tail[i],
            book_id,
            chapter,
        ) by {
            assert(tail[i] == pieces[i + 1]);
        }
        let after = lemma_scan_pieces(next, tail, rest, translation_id, book_id, chapter);
        assert(after.verses =~= state.verses + pieces_verses(
            pieces,
            translation_id,
            book_id,
            chapter,
        ));
        after
    }
}

/// A document that is a row of pieces gives exactly the verses of its
/// pieces: one verse for each verse element and each self-closing verse tag
/// of the wanted chapter, none for anything else, in the order of the
/// document. This holds whether or not the events end with the end of the
/// document.
pub proof fn lemma_document_of_pieces(
    pieces: Seq<Piece>,
    translation_id: Seq<char>,
    book_id: u32,
    chapter: u32,
)
    requires
        all_fit(pieces, book_id, chapter),
    ensures
        verses_of_events(
            pieces_events(pieces).push(XmlEventView::Eof),
            translation_id,
            book_id,
            chapter,
        ) == Ok::<Seq<VerseView>, ParseErrorView>(
            pieces_verses(pieces, translation_id, book_id, chapter),
        ),
        verses_of_events(pieces_events(pieces), translation_id, book_id, chapter) == Ok::<
            Seq<VerseView>,
            ParseErrorView,
        >(pieces_verses(pieces, translation_id, book_id, chapter)),
{
    let out = pieces_verses(pieces, translation_id, book_id, chapter);
    assert(scan_start().verses + out =~= out);
    let end = seq![XmlEventView::Eof];
    assert(pieces_events(pieces).push(XmlEventView::Eof) =~= pieces_events(pieces) + end);
    let at_end = lemma_scan_pieces(scan_start(), pieces, end, translation_id, book_id, chapter);
    assert(end[0] is Eof);
    let nothing = Seq::<XmlEventView>::empty();
    assert(pieces_events(pieces) + nothing =~= pieces_events(pieces));
    let cut_off = lemma_scan_pieces(
        scan_start(),
        pieces,
        nothing,
        translation_id,
        book_id,
        chapter,
    );
}

// ---------------------------------------------------------------------------
// One verse for each piece, in order
// ---------------------------------------------------------------------------

/// The position, in a row of pieces, of the piece that gives the verse at
/// position `k` of the verses of the row.
pub open spec fn origin(pieces: Seq<Piece>, book_id: u32, chapter: u32, k: int) -> int
    decreases pieces.len(),
{
    if pieces.len() == 0 {
        0
    } else if piece_number(pieces[0], book_id, chapter) is Some && k == 0 {
        0
    } else if piece_number(pieces[0], book_id, chapter) is Some {
        1 + origin(pieces.drop_first(), book_id, chapter, k - 1)
    } else {
        1 + origin(pieces.drop_first(), book_id, chapter, k)
    }
}

/// Every verse that a row of pieces gives is the verse of one of its
/// pieces, and carries that piece's verse number.
pub proof fn lemma_verse_has_its_piece(
    pieces: Seq<Piece>,
    translation_id: Seq<char>,
    book_id: u32,
    chapter: u32,
    k: int,
)
    requires
        0 <= k < pieces_verses(pieces, translation_id, book_id, chapter).len(),
    ensures
        0 <= origin(pieces, book_id, chapter, k) < pieces.len(),
        piece_verse(
            pieces[origin(pieces, book_id, chapter, k)],
            translation_id,
            book_id,
            chapter,
        ) == Some(pieces_verses(pieces, translation_id, book_id, chapter)[k]),
        piece_number(pieces[origin(pieces, book_id, chapter, k)], book_id, chapter) == Some(
            pieces_verses(pieces, translation_id, book_id, chapter)[k].verse,
        ),
    decreases pieces.len(),
{
    let tail = pieces.drop_first();
    if piece_number(pieces[0], book_id, chapter) is Some {
        if k > 0 {
            lemma_verse_has_its_piece(tail, translation_id, book_id, chapter, k - 1);
            let i = origin(tail, book_id, chapter, k - 1);
            assert(tail[i] == pieces[i + 1]);
        }
    } else {
        lemma_verse_has_its_piece(tail, translation_id, book_id, chapter, k);
        let i = origin(tail, book_id, chapter, k);
        assert(tail[i] == pieces[i + 1]);
    }
}

/// The verses of a row of pieces come in the order of their pieces: a later
/// verse is the verse of a later piece.
pub proof fn lemma_verses_keep_the_order(
    pieces: Seq<Piece>,
    translation_id: Seq<char>,
    book_id: u32,
    chapter: u32,
    a: int,
    b: int,
)
    requires
        0 <= a < b < pieces_verses(pieces, translation_id, book_id, chapter).len(),
    ensures
        origin(pieces, book_id, chapter, a) < origin(pieces, book_id, chapter, b),
    decreases pieces.len(),
{
    let tail = pieces.drop_first();
    if piece_number(pieces[0], book_id, chapter) is Some {
        if a > 0 {
            lemma_verses_keep_the_order(tail, translation_id, book_id, chapter, a - 1, b - 1);
        } else {
            lemma_verse_has_its_piece(tail, translation_id, book_id, chapter, b - 1);
        }
    } else {
        lemma_verses_keep_the_order(tail, translation_id, book_id, chapter, a, b);
    }
}

/// Every piece with a verse number gives a verse: its verse stands among
/// the verses of the row, at the position that is handed back.
pub proof fn lemma_piece_has_its_verse(
    pieces: Seq<Piece>,
    translation_id: Seq<char>,
    book_id: u32,
    chapter: u32,
    i: int,
) -> (k: int)
    requires
        0 <= i < pieces.len(),
        piece_number(pieces[i], book_id, chapter) is Some,
    ensures
        0 <= k < pieces_verses(pieces, translation_id, book_id, chapter).len(),
        origin(pieces, book_id, chapter, k) == i,
        Some(pieces_verses(pieces, translation_id, book_id, chapter)[k]) == piece_verse(
            pieces[i],
            translation_id,
            book_id,
            chapter,
        ),
    decreases pieces.len(),
{
    let tail = pieces.drop_first();
    if i == 0 {
        0
    } else {
        assert(tail[i - 1] == pieces[i]);
        let k = lemma_piece_has_its_verse(tail, translation_id, book_id, chapter, i - 1);
        if piece_number(pieces[0], book_id, chapter) is Some {
            k + 1
        } else {
            k
        }
    }
}

/// No two pieces carry the same verse number.
pub open spec fn distinct_verse_numbers(pieces: Seq<Piece>, book_id: u32, chapter: u32) -> bool {
    forall|i: int, j: int|
        0 <= i < j < pieces.len() && (#[trigger] piece_number(pieces[i], book_id, chapter))
            is Some ==> piece_number(pieces[i], book_id, chapter) != #[trigger] piece_number(
            pieces[j],
            book_id,
            chapter,
        )
}

/// Where no two pieces carry the same verse number, no two of the verses
/// do: the document gives one verse for each verse number, and none twice.
pub proof fn lemma_no_duplicates(
    pieces: Seq<Piece>,
    translation_id: Seq<char>,
    book_id: u32,
    chapter: u32,
)
    requires
        distinct_verse_numbers(pieces, book_id, chapter),
    ensures
        forall|a: int, b: int|
            0 <= a < b < pieces_verses(pieces, translation_id, book_id, chapter).len() ==> (
            #[trigger] pieces_verses(pieces, translation_id, book_id, chapter)[a]).verse != (
            #[trigger] pieces_verses(pieces, translation_id, book_id, chapter)[b]).verse,
{
    let out = pieces_verses(pieces, translation_id, book_id, chapter);
    assert forall|a: int, b: int| 0 <= a < b < out.len() implies (#[trigger] out[a]).verse != (
    #[trigger] out[b]).verse by {
        lemma_verse_has_its_piece(pieces, translation_id, book_id, chapter, a);
        lemma_verse_has_its_piece(pieces, translation_id, book_id, chapter, b);
        lemma_verses_keep_the_order(pieces, translation_id, book_id, chapter, a, b);
        let i = origin(pieces, book_id, chapter, a);
        let j = origin(pieces, book_id, chapter, b);
        assert(piece_number(pieces[i], book_id, chapter) != piece_number(
            pieces[j],
            book_id,
            chapter,
        ));
    }
}

// ---------------------------------------------------------------------------
// Documents without a verse of the wanted chapter
// ---------------------------------------------------------------------------

/// Scanning events that open no verse, with no verse open, emits nothing.
pub proof fn lemma_scan_without_match(
    state: ScanState,
    events: Seq<XmlEventView>,
    translation_id: Seq<char>,
    book_id: u32,
    chapter: u32,
)
    requires
        state.open is None,
        forall|i: int| 0 <= i < events.len() ==> opens_nothing(#[trigger] events[i], book_id, chapter),
    ensures
        scan(state, events, translation_id, book_id, chapter) matches Ok(verses) ==> verses
            == state.verses,
        (forall|i: int| 0 <= i < events.len() ==> !(#[trigger] events[i] is Malformed)) ==> scan(
            state,
            events,
            translation_id,
            book_id,
            chapter,
        ) is Ok,
    decreases events.len(),
{
    if events.len() > 0 {
        assert(opens_nothing(events[0], book_id, chapter));
        match events[0] {
            XmlEventView::Eof => {},
            XmlEventView::Malformed { .. } => {},
            event => {
                let next = scan_step(state, event, translation_id, book_id, chapter);
                assert(next == state);
                let rest = events.drop_first();
                assert forall|i: int| 0 <= i < rest.len() implies opens_nothing(
                    #[trigger] rest[i],
                    book_id,
                    chapter,
                ) by {
                    assert(rest[i] == events[i + 1]);
                }
                lemma_scan_without_match(state, rest, translation_id, book_id, chapter);
                if forall|i: int| 0 <= i < events.len() ==> !(#[trigger] events[i] is Malformed) {
                    assert forall|i: int| 0 <= i < rest.len() implies !(
                    #[trigger] rest[i] is Malformed) by {
                        assert(rest[i] == events[i + 1]);
                    }
                }
            },
        }
    }
}

/// A document without a tag that opens a verse of the wanted chapter gives an
/// empty list of verses, not an error, unless it is not well-formed.
pub proof fn lemma_no_match_is_empty(
    events: Seq<XmlEventView>,
    translation_id: Seq<char>,
    book_id: u32,
    chapter: u32,
)
    requires
        forall|i: int| 0 <= i < events.len() ==> opens_nothing(#[trigger] events[i], book_id, chapter),
    ensures
        verses_of_events(events, translation_id, book_id, chapter) matches Ok(verses)
            ==> verses.len() == 0,
        (forall|i: int| 0 <= i < events.len() ==> !(#[trigger] events[i] is Malformed))
            ==> verses_of_events(events, translation_id, book_id, chapter) == Ok::<
            Seq<VerseView>,
            ParseErrorView,
        >(Seq::empty()),
{
    lemma_scan_without_match(scan_start(), events, translation_id, book_id, chapter);
}

/// A verse of the wanted chapter of the wanted book in the wanted
/// translation, with the identifier that goes with its place.
pub open spec fn belongs_to(
    verse: VerseView,
    translation_id: Seq<char>,
    book_id: u32,
    chapter: u32,
) -> bool {
    &&& verse.translation_id == translation_id
    &&& verse.book_id == book_id
    &&& verse.chapter == chapter
    &&& verse.id == verse_id(translation_id, book_id, chapter, verse.verse)
}

/// A scan adds only verses of the wanted chapter.
pub proof fn lemma_scan_belongs(
    state: ScanState,
    events: Seq<XmlEventView>,
    translation_id: Seq<char>,
    book_id: u32,
    chapter: u32,
)
    requires
        forall|k: int|
            0 <= k < state.verses.len() ==> belongs_to(
                #[trigger] state.verses[k],
                translation_id,
                book_id,
                chapter,
            ),
    ensures
        scan(state, events, translation_id, book_id, chapter) matches Ok(verses) ==> forall|k: int|
            0 <= k < verses.len() ==> belongs_to(
                #[trigger] verses[k],
                translation_id,
                book_id,
                chapter,
            ),
    decreases events.len(),
{
    if events.len() > 0 {
        match events[0] {
            XmlEventView::Eof => {},
            XmlEventView::Malformed { .. } => {},
            event => {
                let next = scan_step(state, event, translation_id, book_id, chapter);
                assert forall|k: int| 0 <= k < next.verses.len() implies belongs_to(
                    #[trigger] next.verses[k],
                    translation_id,
                    book_id,
                    chapter,
                ) by {
                    if k < state.verses.len() {
                        assert(next.verses[k] == state.verses[k]);
                    }
                }
                lemma_scan_belongs(next, events.drop_first(), translation_id, book_id, chapter);
            },
        }
    }
}

/// Whatever the document, every verse that the parser returns is a verse of
/// the wanted chapter of the wanted book in the wanted translation, and its
/// identifier is made of these and of its number.
pub proof fn lemma_verses_belong(
    events: Seq<XmlEventView>,
    translation_id: Seq<char>,
    book_id: u32,
    chapter: u32,
)
    ensures
        verses_of_events(events, translation_id, book_id, chapter) matches Ok(verses)
            ==> forall|k: int|
            0 <= k < verses.len() ==> belongs_to(
                #[trigger] verses[k],
                translation_id,
                book_id,
                chapter,
            ),
{
    lemma_scan_belongs(scan_start(), events, translation_id, book_id, chapter);
}

} // verus!
