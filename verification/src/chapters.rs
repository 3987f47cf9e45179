//! Chapter counts: how many chapters of each book a document holds, and the
//! list of books that follows from it.
//!
//! The scan is that of the verse parser: every verse tag with a readable
//! reference counts, whatever its position. For each book code that the
//! catalog knows, the largest chapter number among its references is kept.

use crate::catalog::{
    catalog, code_book_id, code_position, lemma_position_below, osis_book_map,
    standard_books, BookCodeMap, BOOK_COUNT,
};
use crate::markup::{read_tag_reference, tag_reference, ParseError, ParseErrorView};
use crate::text::chars_of;
use crate::types::{book_views, lemma_book_views_push, Book, BookView};
use crate::xml::{
    complete, document_events, event_views, lemma_complete_rest, next_event, open_reader,
    pending_events, plain_event, XmlEvent, XmlEventView, XmlTag,
};
use vstd::prelude::*;

verus! {

/// The larger of two numbers.
pub open spec fn larger(a: u32, b: u32) -> u32 {
    if a >= b {
        a
    } else {
        b
    }
}

/// The count kept for a book code so far; 0 where none is kept.
pub open spec fn count_so_far(counts: Map<Seq<char>, u32>, code: Seq<char>) -> u32 {
    if counts.contains_key(code) {
        counts[code]
    } else {
        0
    }
}

/// What a tag does to the counts: a verse tag whose reference names a book
/// of the catalog raises the count of that book's code to the chapter of the
/// reference, if that is larger.
pub open spec fn count_tag(counts: Map<Seq<char>, u32>, tag: crate::xml::XmlTagView) -> Map<
    Seq<char>,
    u32,
> {
    match tag_reference(tag) {
        Some(reference) => if code_book_id(reference.book) is Some {
            counts.insert(
                reference.book,
                larger(count_so_far(counts, reference.book), reference.chapter),
            )
        } else {
            counts
        },
        None => counts,
    }
}

/// What one event does to the counts: only opening and self-closing tags
/// count.
pub open spec fn count_step(counts: Map<Seq<char>, u32>, event: XmlEventView) -> Map<
    Seq<char>,
    u32,
> {
    match event {
        XmlEventView::Start(tag) | XmlEventView::Empty(tag) => count_tag(counts, tag),
        _ => counts,
    }
}

/// What counting the events from `counts` on comes to: the counts by the
/// time the document ends, or the error at which it stops being well-formed.
pub open spec fn count_events(counts: Map<Seq<char>, u32>, events: Seq<XmlEventView>) -> Result<
    Map<Seq<char>, u32>,
    ParseErrorView,
>
    decreases events.len(),
{
    if events.len() == 0 {
        Ok(counts)
    } else {
        match events[0] {
            XmlEventView::Eof => Ok(counts),
            XmlEventView::Malformed { position, reason } => Err(
                ParseErrorView { position, reason },
            ),
            event => count_events(count_step(counts, event), events.drop_first()),
        }
    }
}

/// For each book code of the catalog that a stream of events refers to, the
/// largest chapter number among the references.
pub open spec fn chapter_counts_of_events(events: Seq<XmlEventView>) -> Result<
    Map<Seq<char>, u32>,
    ParseErrorView,
> {
    count_events(Map::empty(), events)
}

/// Chapter counts by book code. Only codes of the catalog have counts.
pub struct ChapterCounts {
    codes: BookCodeMap,
    slots: Vec<Option<u32>>,
}

impl ChapterCounts {
    /// The counts are laid out along the catalog.
    #[verifier::type_invariant]
    spec fn along_catalog(&self) -> bool {
        self.slots@.len() == BOOK_COUNT
    }

    /// The counts as a map from a book code to its count.
    pub closed spec fn view(&self) -> Map<Seq<char>, u32> {
        Map::new(
            |code: Seq<char>|
                code_position(code) is Some && self.slots@[code_position(code).unwrap()] is Some,
            |code: Seq<char>| self.slots@[code_position(code).unwrap()].unwrap(),
        )
    }

    /// No counts.
    pub fn new() -> (counts: Self)
        ensures
            counts@ == Map::<Seq<char>, u32>::empty(),
    {
        let mut slots: Vec<Option<u32>> = Vec::new();
        let mut i: usize = 0;
        while i < BOOK_COUNT
            invariant
                i <= BOOK_COUNT,
                slots@.len() == i,
                forall|j: int| 0 <= j < i ==> (#[trigger] slots@[j]).is_none(),
            decreases BOOK_COUNT - i,
        {
            slots.push(None);
            i += 1;
        }
        let counts = ChapterCounts { codes: osis_book_map(), slots };
        proof {
            assert forall|code: Seq<char>| !counts@.contains_key(code) by {
                lemma_position_below(code, BOOK_COUNT as int);
            }
            assert(counts@ =~= Map::<Seq<char>, u32>::empty());
        }
        counts
    }

    /// The count of the book that goes by `code`.
    pub fn get(&self, code: &str) -> (r: Option<u32>)
        ensures
            match r {
                Some(count) => self@.contains_key(code@) && self@[code@] == count,
                None => !self@.contains_key(code@),
            },
    {
        proof {
            use_type_invariant(self);
        }
        let chars = chars_of(code);
        match self.codes.position(&chars) {
            Some(i) => self.slots[i],
            None => None,
        }
    }

    /// Takes one tag into the counts.
    fn record(&mut self, tag: &XmlTag)
        ensures
            final(self)@ == count_tag(old(self)@, tag@),
    {
        proof {
            use_type_invariant(&*self);
        }
        match read_tag_reference(tag) {
            Some(reference) => {
                let code = chars_of(reference.book.as_str());
                match self.codes.position(&code) {
                    Some(i) => {
                        let so_far: u32 = match self.slots[i] {
                            Some(count) => count,
                            None => 0,
                        };
                        let raised = if so_far >= reference.chapter {
                            so_far
                        } else {
                            reference.chapter
                        };
                        let ghost before = self.slots@;
                        self.slots[i] = Some(raised);
                        proof {
                            assert(self.slots@ == before.update(i as int, Some(raised)));
                            let grown = old(self)@.insert(code@, raised);
                            assert forall|key: Seq<char>|
                                #[trigger] self@.dom().contains(key) == grown.dom().contains(
                                    key,
                                ) && (self@.dom().contains(key) ==> self@[key] == grown[key]) by {
                                lemma_position_below(key, BOOK_COUNT as int);
                                lemma_position_below(code@, BOOK_COUNT as int);
                                if key != code@ && code_position(key) is Some {
                                    let j = code_position(key).unwrap();
                                    assert(j != i);
                                    assert(self.slots@[j] == before[j]);
                                }
                            }
                            assert(self@.dom() =~= grown.dom());
                            assert(self@ =~= grown);
                        }
                    },
                    None => {},
                }
            },
            None => {},
        }
    }
}

/// The view of what counting chapters returns.
pub open spec fn counts_result(r: Result<ChapterCounts, ParseError>) -> Result<
    Map<Seq<char>, u32>,
    ParseErrorView,
> {
    match r {
        Ok(counts) => Ok(counts@),
        Err(e) => Err(e@),
    }
}

/// For each book code of the catalog that the events refer to, the largest
/// chapter number among the references. Fails where the events end with an
/// error.
pub fn chapter_counts_from_events(events: &Vec<XmlEvent>) -> (r: Result<
    ChapterCounts,
    ParseError,
>)
    ensures
        counts_result(r) == chapter_counts_of_events(event_views(events@)),
{
    let ghost all = event_views(events@);
    let ghost goal = chapter_counts_of_events(all);
    let mut counts = ChapterCounts::new();
    let mut i: usize = 0;
    assert(all.skip(0) == all);
    while i < events.len()
        invariant
            i <= events.len(),
            all == event_views(events@),
            goal == chapter_counts_of_events(all),
            goal == count_events(counts@, all.skip(i as int)),
        decreases events.len() - i,
    {
        let ghost rest = all.skip(i as int);
        assert(rest[0] == events@[i as int]@);
        assert(rest.drop_first() == all.skip(i + 1));
        match &events[i] {
            XmlEvent::Eof => {
                assert(rest[0] is Eof);
                return Ok(counts);
            },
            XmlEvent::Malformed { position, reason } => {
                assert(rest[0] is Malformed);
                return Err(ParseError { position: *position, reason: reason.clone() });
            },
            XmlEvent::Start(tag) => {
                counts.record(tag);
            },
            XmlEvent::Empty(tag) => {
                counts.record(tag);
            },
            _ => {},
        }
        i += 1;
    }
    assert(all.skip(i as int).len() == 0);
    Ok(counts)
}

/// The chapter counts of a document: for each book code of the catalog that
/// the document refers to, the largest chapter number among the references.
/// Only a document that is not well-formed gives an error.
pub fn parse_book_chapter_counts(document: &[u8]) -> (r: Result<ChapterCounts, ParseError>)
    ensures
        counts_result(r) == chapter_counts_of_events(document_events(document@)),
{
    let ghost goal = chapter_counts_of_events(document_events(document@));
    let mut reader = open_reader(document);
    let mut counts = ChapterCounts::new();
    loop
        invariant
            complete(pending_events(reader)),
            goal == chapter_counts_of_events(document_events(document@)),
            goal == count_events(counts@, pending_events(reader)),
        decreases pending_events(reader).len(),
    {
        let ghost before = pending_events(reader);
        let event = plain_event(next_event(&mut reader));
        match event {
            XmlEvent::Eof => {
                assert(before[0] is Eof);
                return Ok(counts);
            },
            XmlEvent::Malformed { position, reason } => {
                assert(before[0] is Malformed);
                return Err(ParseError { position, reason });
            },
            XmlEvent::Start(tag) => {
                proof {
                    lemma_complete_rest(before);
                }
                counts.record(&tag);
            },
            XmlEvent::Empty(tag) => {
                proof {
                    lemma_complete_rest(before);
                }
                counts.record(&tag);
            },
            _ => {
                proof {
                    lemma_complete_rest(before);
                }
            },
        }
    }
}

// ---------------------------------------------------------------------------
// The books of a document
// ---------------------------------------------------------------------------

/// A book whose code has a count.
pub open spec fn observed(counts: Map<Seq<char>, u32>) -> spec_fn(BookView) -> bool {
    |book: BookView| counts.contains_key(book.abbreviation)
}

/// A book with the count of its code as its number of chapters.
pub open spec fn with_count(counts: Map<Seq<char>, u32>) -> spec_fn(BookView) -> BookView {
    |book: BookView|
        BookView {
            id: book.id,
            name: book.name,
            abbreviation: book.abbreviation,
            testament: book.testament,
            order_index: book.order_index,
            chapter_count: counts[book.abbreviation],
        }
}

/// The books that counts stand for: the books of the catalog whose code has
/// a count, in canonical order, each with that count as its number of
/// chapters.
pub open spec fn observed_books(counts: Map<Seq<char>, u32>) -> Seq<BookView> {
    catalog().filter(observed(counts)).map_values(with_count(counts))
}

/// The books that counts stand for.
pub fn books_from_counts(counts: &ChapterCounts) -> (books: Vec<Book>)
    ensures
        book_views(books@) == observed_books(counts@),
{
    let ghost seen = observed(counts@);
    let ghost counted = with_count(counts@);
    let standard = standard_books();
    let mut books: Vec<Book> = Vec::new();
    let mut i: usize = 0;
    proof {
        assert(book_views(standard@).len() == standard@.len());
        assert(catalog().len() == BOOK_COUNT);
        assert(catalog().take(0) =~= Seq::<BookView>::empty());
        assert(Seq::<BookView>::empty().filter(seen) =~= Seq::<BookView>::empty()) by {
            reveal(Seq::filter);
        }
        assert(book_views(books@) =~= Seq::<BookView>::empty().map_values(counted));
    }
    while i < standard.len()
        invariant
            i <= standard.len(),
            standard@.len() == BOOK_COUNT,
            book_views(standard@) == catalog(),
            seen == observed(counts@),
            counted == with_count(counts@),
            book_views(books@) == catalog().take(i as int).filter(seen).map_values(counted),
        decreases standard.len() - i,
    {
        let book = &standard[i];
        proof {
            assert(book@ == book_views(standard@)[i as int]);
            assert(catalog().take(i + 1) == catalog().take(i as int).push(book@));
            catalog().take(i as int).lemma_filter_push(book@, seen);
        }
        match counts.get(book.abbreviation.as_str()) {
            Some(count) => {
                let item = Book {
                    id: book.id,
                    name: book.name.clone(),
                    abbreviation: book.abbreviation.clone(),
                    testament: book.testament,
                    order_index: book.order_index,
                    chapter_count: count,
                };
                proof {
                    lemma_book_views_push(books@, item);
                    assert(item@ == counted(book@));
                    assert(catalog().take(i as int).filter(seen).push(book@).map_values(counted)
                        =~= catalog().take(i as int).filter(seen).map_values(counted).push(
                        counted(book@),
                    ));
                }
                books.push(item);
            },
            None => {},
        }
        i += 1;
    }
    proof {
        assert(book_views(standard@).len() == standard@.len());
        assert(catalog().take(i as int) == catalog());
    }
    books
}

/// The view of what listing the books of a document returns.
pub open spec fn books_result(r: Result<Vec<Book>, ParseError>) -> Result<
    Seq<BookView>,
    ParseErrorView,
> {
    match r {
        Ok(books) => Ok(book_views(books@)),
        Err(e) => Err(e@),
    }
}

/// The books that a stream of events stands for.
pub open spec fn books_of_events(events: Seq<XmlEventView>) -> Result<
    Seq<BookView>,
    ParseErrorView,
> {
    match chapter_counts_of_events(events) {
        Ok(counts) => Ok(observed_books(counts)),
        Err(e) => Err(e),
    }
}

/// The books of a document: the books of the catalog that the document
/// refers to, in canonical order, each with the largest chapter number among
/// its references as its number of chapters.
pub fn parse_books(document: &[u8]) -> (r: Result<Vec<Book>, ParseError>)
    ensures
        books_result(r) == books_of_events(document_events(document@)),
{
    match parse_book_chapter_counts(document) {
        Ok(counts) => Ok(books_from_counts(&counts)),
        Err(e) => Err(e),
    }
}

} // verus!
