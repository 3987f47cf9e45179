//! What holds of the catalog, of the chapter counts of a document and of the
//! list of books that follows from them.

use crate::catalog::{catalog, catalog_book, code_book_id, follows_catalog, BOOK_COUNT};
use crate::chapters::{
    chapter_counts_of_events, count_events, count_step, observed, observed_books, with_count,
};
use crate::markup::{tag_reference, ParseErrorView};
use crate::service::{books_outcome, parsed_books};
use crate::types::BookView;
use crate::xml::{is_final, XmlEventView};
use vstd::prelude::*;

verus! {

/// The catalog holds 66 books; the book at position `i` has the id and the
/// order index `i + 1`.
pub proof fn lemma_catalog_order()
    ensures
        catalog().len() == 66,
        forall|i: int|
            0 <= i < 66 ==> (#[trigger] catalog()[i]).id == i + 1 && catalog()[i].order_index == i
                + 1,
{
}

/// Before anything is kept for a translation and without its document, the
/// books of the translation are the catalog, and nothing is kept.
pub proof fn lemma_books_before_download(
    cache: Map<Seq<char>, Seq<BookView>>,
    translation_id: Seq<char>,
)
    requires
        !cache.contains_key(translation_id),
    ensures
        books_outcome(cache, translation_id, None) == (catalog(), cache),
{
}

/// The books that counts stand for among the first `n` books of the catalog.
pub open spec fn observed_below(counts: Map<Seq<char>, u32>, n: int) -> Seq<BookView> {
    catalog().take(n).filter(observed(counts)).map_values(with_count(counts))
}

/// Among the first `n` books of the catalog, the books that counts stand
/// for are books of the catalog whose code has a count, each with that count
/// as its number of chapters, in the order of the catalog.
pub proof fn lemma_observed_below(counts: Map<Seq<char>, u32>, n: int)
    requires
        0 <= n <= BOOK_COUNT,
    ensures
        forall|k: int|
            0 <= k < observed_below(counts, n).len() ==> {
                let book = #[trigger] observed_below(counts, n)[k];
                &&& 1 <= book.order_index <= n
                &&& counts.contains_key(book.abbreviation)
                &&& book == with_count(counts)(catalog_book(book.order_index - 1))
            },
        forall|a: int, b: int|
            0 <= a < b < observed_below(counts, n).len() ==> (#[trigger] observed_below(
                counts,
                n,
            )[a]).order_index < (#[trigger] observed_below(counts, n)[b]).order_index,
    decreases n,
{
    let seen = observed(counts);
    let counted = with_count(counts);
    if n == 0 {
        assert(catalog().take(0) =~= Seq::<BookView>::empty());
        assert(Seq::<BookView>::empty().filter(seen) =~= Seq::<BookView>::empty()) by {
            reveal(Seq::filter);
        }
    } else {
        lemma_observed_below(counts, n - 1);
        let before = observed_below(counts, n - 1);
        let book = catalog_book(n - 1);
        assert(catalog().take(n) == catalog().take(n - 1).push(book));
        catalog().take(n - 1).lemma_filter_push(book, seen);
        let now = observed_below(counts, n);
        if seen(book) {
            assert(now =~= before.push(counted(book)));
            assert forall|k: int| 0 <= k < now.len() implies {
                let item = #[trigger] now[k];
                &&& 1 <= item.order_index <= n
                &&& counts.contains_key(item.abbreviation)
                &&& item == counted(catalog_book(item.order_index - 1))
            } by {
                if k < before.len() {
                    assert(now[k] == before[k]);
                }
            }
            assert forall|a: int, b: int| 0 <= a < b < now.len() implies (#[trigger] now[a]).order_index
                < (#[trigger] now[b]).order_index by {
                assert(now[a] == before[a]);
                if b < before.len() {
                    assert(now[b] == before[b]);
                }
            }
        } else {
            assert(now =~= before);
        }
    }
}

/// The books that counts stand for are books of the catalog whose code has a
/// count, each with that count as its number of chapters, and they come in
/// the order of their order indices.
pub proof fn lemma_observed_books(counts: Map<Seq<char>, u32>)
    ensures
        forall|k: int|
            0 <= k < observed_books(counts).len() ==> {
                let book = #[trigger] observed_books(counts)[k];
                &&& 1 <= book.order_index <= 66
                &&& counts.contains_key(book.abbreviation)
                &&& book.chapter_count == counts[book.abbreviation]
                &&& book == with_count(counts)(catalog_book(book.order_index - 1))
            },
        forall|a: int, b: int|
            0 <= a < b < observed_books(counts).len() ==> (#[trigger] observed_books(
                counts,
            )[a]).order_index < (#[trigger] observed_books(counts)[b]).order_index,
{
    lemma_observed_below(counts, BOOK_COUNT as int);
    assert(catalog().take(BOOK_COUNT as int) == catalog());
    assert(observed_below(counts, BOOK_COUNT as int) == observed_books(counts));
}

/// The books that counts stand for are a list of books of the catalog in
/// canonical order.
pub proof fn lemma_observed_books_follow_catalog(counts: Map<Seq<char>, u32>)
    ensures
        follows_catalog(observed_books(counts)),
{
    lemma_observed_books(counts);
}

/// The event at position `i` is read: no event before it ends the document.
pub open spec fn is_read(events: Seq<XmlEventView>, i: int) -> bool {
    &&& 0 <= i < events.len()
    &&& forall|j: int| 0 <= j < i ==> !is_final(#[trigger] events[j])
}

/// What the event refers to, if it is a verse tag with a readable
/// reference: the book code and the chapter.
pub open spec fn referred(event: XmlEventView) -> Option<(Seq<char>, u32)> {
    match event {
        XmlEventView::Start(tag) | XmlEventView::Empty(tag) => match tag_reference(tag) {
            Some(reference) => Some((reference.book, reference.chapter)),
            None => None,
        },
        _ => None,
    }
}

/// The event at position `i` is a verse tag that is read and refers to
/// `chapter` of the book that goes by `code`.
pub open spec fn refers_to(
    events: Seq<XmlEventView>,
    i: int,
    code: Seq<char>,
    chapter: u32,
) -> bool {
    is_read(events, i) && referred(events[i]) == Some((code, chapter))
}

/// Some verse tag that is read refers to the book that goes by `code`.
pub open spec fn is_referred_to(events: Seq<XmlEventView>, code: Seq<char>) -> bool {
    exists|i: int, chapter: u32| refers_to(events, i, code, chapter)
}

proof fn lemma_refers_shift(events: Seq<XmlEventView>, i: int, code: Seq<char>, chapter: u32)
    requires
        events.len() > 0,
        !is_final(events[0]),
    ensures
        i >= 0 ==> (refers_to(events.drop_first(), i, code, chapter) == refers_to(
            events,
            i + 1,
            code,
            chapter,
        )),
{
    let rest = events.drop_first();
    if i >= 0 {
        if refers_to(rest, i, code, chapter) {
            assert(rest[i] == events[i + 1]);
            assert forall|j: int| 0 <= j < i + 1 implies !is_final(#[trigger] events[j]) by {
                if j > 0 {
                    assert(events[j] == rest[j - 1]);
                }
            }
        }
        if refers_to(events, i + 1, code, chapter) {
            assert(rest[i] == events[i + 1]);
            assert forall|j: int| 0 <= j < i implies !is_final(#[trigger] rest[j]) by {
                assert(rest[j] == events[j + 1]);
            }
        }
    }
}

/// What one event does to the count of one code.
proof fn lemma_count_step(start: Map<Seq<char>, u32>, event: XmlEventView, code: Seq<char>)
    ensures
        ({
            let next = count_step(start, event);
            let named = referred(event) matches Some(r) && r.0 == code && code_book_id(code)
                is Some;
            &&& next.contains_key(code) <==> start.contains_key(code) || named
            &&& start.contains_key(code) ==> start[code] <= next[code]
            &&& named ==> referred(event).unwrap().1 <= next[code]
            &&& next.contains_key(code) ==> (start.contains_key(code) && next[code] == start[code])
                || (named && next[code] == referred(event).unwrap().1)
        }),
{
}

/// What counting comes to, from counts that may hold something already. A
/// code has a count in the end if it had one before or if the catalog knows
/// it and a verse tag refers to it. No count ever falls, every reference is
/// covered by the count of its code, and a count that changed is the chapter
/// of some reference.
pub proof fn lemma_count_events(
    start: Map<Seq<char>, u32>,
    events: Seq<XmlEventView>,
    code: Seq<char>,
)
    ensures
        count_events(start, events) matches Ok(counts) ==> {
            &&& counts.contains_key(code) <==> start.contains_key(code) || (code_book_id(code)
                is Some && is_referred_to(events, code))
            &&& start.contains_key(code) ==> start[code] <= counts[code]
            &&& forall|i: int, chapter: u32|
                code_book_id(code) is Some && #[trigger] refers_to(events, i, code, chapter)
                    ==> chapter <= counts[code]
            &&& counts.contains_key(code) ==> (start.contains_key(code) && counts[code]
                == start[code]) || exists|i: int| refers_to(events, i, code, counts[code])
        },
    decreases events.len(),
{
    if events.len() == 0 {
        assert(!is_referred_to(events, code));
    } else {
        match events[0] {
            XmlEventView::Eof => {
                assert forall|i: int, chapter: u32| !refers_to(events, i, code, chapter) by {
                    if refers_to(events, i, code, chapter) {
                        if i > 0 {
                            assert(is_final(events[0]));
                        }
                    }
                }
            },
            XmlEventView::Malformed { .. } => {},
            event => {
                let next = count_step(start, event);
                let rest = events.drop_first();
                lemma_count_events(next, rest, code);
                lemma_count_step(start, event, code);
                match count_events(next, rest) {
                    Ok(counts) => {
                        assert forall|i: int, chapter: u32| i >= 0 implies (refers_to(
                            rest,
                            i,
                            code,
                            chapter,
                        ) == #[trigger] refers_to(events, i + 1, code, chapter)) by {
                            lemma_refers_shift(events, i, code, chapter);
                        }
                        let first = referred(event);
                        assert forall|chapter: u32|
                            refers_to(events, 0, code, chapter) == (first == Some(
                                (code, chapter),
                            )) by {}
                        // Membership.
                        if is_referred_to(rest, code) {
                            let (i, chapter) = choose|i: int, chapter: u32|
                                refers_to(rest, i, code, chapter);
                            assert(refers_to(events, i + 1, code, chapter));
                        }
                        if code_book_id(code) is Some && is_referred_to(events, code) {
                            let (i, chapter) = choose|i: int, chapter: u32|
                                refers_to(events, i, code, chapter);
                            if i > 0 {
                                assert(refers_to(rest, i - 1, code, chapter)) by {
                                    lemma_refers_shift(events, i - 1, code, chapter);
                                }
                            } else {
                                assert(next.contains_key(code));
                            }
                        }
                        if next.contains_key(code) && !start.contains_key(code) {
                            assert(first is Some && first.unwrap().0 == code);
                            assert(refers_to(events, 0, code, first.unwrap().1));
                        }
                        // Every reference is covered.
                        assert forall|i: int, chapter: u32|
                            code_book_id(code) is Some && #[trigger] refers_to(
                                events,
                                i,
                                code,
                                chapter,
                            ) implies chapter <= counts[code] by {
                            if i > 0 {
                                lemma_refers_shift(events, i - 1, code, chapter);
                                assert(refers_to(rest, i - 1, code, chapter));
                            } else {
                                assert(first == Some((code, chapter)));
                                assert(next.contains_key(code) && chapter <= next[code]);
                            }
                        }
                        // A count that changed is the chapter of a reference.
                        if counts.contains_key(code) && !(start.contains_key(code) && counts[code]
                            == start[code]) {
                            if next.contains_key(code) && counts[code] == next[code] {
                                assert(first is Some && first.unwrap().0 == code);
                                assert(next[code] == first.unwrap().1);
                                assert(refers_to(events, 0, code, counts[code]));
                            } else {
                                let i = choose|i: int| refers_to(rest, i, code, counts[code]);
                                assert(refers_to(events, i + 1, code, counts[code]));
                            }
                        }
                    },
                    Err(_) => {},
                }
            },
        }
    }
}

/// The chapter counts of a document. A code has a count exactly if the
/// catalog knows it and a verse tag of the document refers to it. The count
/// is the largest chapter among the references to the code: it is the
/// chapter of one of them, and no reference has a larger one.
pub proof fn lemma_chapter_counts(events: Seq<XmlEventView>, code: Seq<char>)
    ensures
        chapter_counts_of_events(events) matches Ok(counts) ==> {
            &&& counts.contains_key(code) <==> code_book_id(code) is Some && is_referred_to(
                events,
                code,
            )
            &&& counts.contains_key(code) ==> exists|i: int|
                refers_to(events, i, code, counts[code])
            &&& forall|i: int, chapter: u32|
                counts.contains_key(code) && #[trigger] refers_to(events, i, code, chapter)
                    ==> chapter <= counts[code]
        },
{
    lemma_count_events(Map::empty(), events, code);
}

/// After the download, with nothing kept for the translation yet, the books
/// of a translation are those that its document refers to: books of the
/// catalog whose code has a count, in the order of their order indices, each
/// with the largest chapter among the references to it as its number of
/// chapters. They are kept. This holds of a well-formed document that
/// refers to at least one book of the catalog.
pub proof fn lemma_books_after_download(
    cache: Map<Seq<char>, Seq<BookView>>,
    translation_id: Seq<char>,
    events: Seq<XmlEventView>,
    counts: Map<Seq<char>, u32>,
)
    requires
        !cache.contains_key(translation_id),
        chapter_counts_of_events(events) == Ok::<Map<Seq<char>, u32>, ParseErrorView>(counts),
        observed_books(counts).len() > 0,
    ensures
        books_outcome(cache, translation_id, parsed_books(Some(events))) == (
            observed_books(counts),
            cache.insert(translation_id, observed_books(counts)),
        ),
        forall|k: int|
            0 <= k < observed_books(counts).len() ==> {
                let book = #[trigger] observed_books(counts)[k];
                &&& code_book_id(book.abbreviation) is Some
                &&& is_referred_to(events, book.abbreviation)
                &&& exists|i: int| refers_to(events, i, book.abbreviation, book.chapter_count)
                &&& forall|i: int, chapter: u32| #[trigger]
                    refers_to(events, i, book.abbreviation, chapter) ==> chapter
                        <= book.chapter_count
            },
        forall|a: int, b: int|
            0 <= a < b < observed_books(counts).len() ==> (#[trigger] observed_books(
                counts,
            )[a]).order_index < (#[trigger] observed_books(counts)[b]).order_index,
{
    lemma_observed_books(counts);
    assert forall|k: int| 0 <= k < observed_books(counts).len() implies {
        let book = #[trigger] observed_books(counts)[k];
        &&& code_book_id(book.abbreviation) is Some
        &&& is_referred_to(events, book.abbreviation)
        &&& exists|i: int| refers_to(events, i, book.abbreviation, book.chapter_count)
        &&& forall|i: int, chapter: u32| #[trigger]
            refers_to(events, i, book.abbreviation, chapter) ==> chapter <= book.chapter_count
    } by {
        let book = observed_books(counts)[k];
        lemma_chapter_counts(events, book.abbreviation);
    }
}

} // verus!
