//! What the content store keeps stays, and stays in its place: nothing that
//! was parsed is dropped or replaced, books that are kept are books of the
//! catalog in canonical order, verses that are kept under the key of a
//! chapter are verses of that chapter, and a search never looks beyond its
//! bounds.

use crate::catalog::{follows_catalog, lemma_catalog_follows_catalog};
use crate::chapters::chapter_counts_of_events;
use crate::data::chapter_key;
use crate::elements::{belongs_to, lemma_verses_belong};
use crate::keys::lemma_chapter_key_is_injective;
use crate::observed::lemma_observed_books_follow_catalog;
use crate::service::{
    all_belong, book_targets, books_fit, books_in_place, books_outcome, hits_in, holds_query,
    in_some_chapter, parsed_books, parsed_verses, search_outcome, search_targets,
    searched_books, searched_chapters, verses_fit, verses_in_place, verses_outcome, Parsed,
    SEARCH_BOOKS, SEARCH_CHAPTERS,
};
use crate::types::{BookView, VerseView};
use crate::xml::XmlEventView;
use vstd::prelude::*;

verus! {

/// Every entry of `before` stands unchanged in `after`.
pub open spec fn keeps<V>(before: Map<Seq<char>, V>, after: Map<Seq<char>, V>) -> bool {
    forall|key: Seq<char>| #[trigger]
        before.contains_key(key) ==> after.contains_key(key) && after[key] == before[key]
}

/// Loading books never drops or replaces books that are kept, and books that
/// are kept are handed back as they are.
pub proof fn lemma_books_stay(
    cache: Map<Seq<char>, Seq<BookView>>,
    translation_id: Seq<char>,
    parsed: Parsed<Seq<BookView>>,
)
    ensures
        keeps(cache, books_outcome(cache, translation_id, parsed).1),
        cache.contains_key(translation_id) ==> books_outcome(cache, translation_id, parsed) == (
            cache[translation_id],
            cache,
        ),
{
}

/// Loading verses never drops or replaces verses that are kept, and verses
/// that are kept are handed back as they are, with or without the document.
pub proof fn lemma_verses_stay(
    cache: Map<Seq<char>, Seq<VerseView>>,
    translation_id: Seq<char>,
    book_id: u32,
    chapter: u32,
    parsed: Parsed<Seq<VerseView>>,
)
    ensures
        keeps(cache, verses_outcome(cache, translation_id, book_id, chapter, parsed).1),
        cache.contains_key(chapter_key(translation_id, book_id, chapter))
            ==> verses_outcome(cache, translation_id, book_id, chapter, parsed) == (
            Ok::<Seq<VerseView>, crate::service::ServiceErrorView>(
                cache[chapter_key(translation_id, book_id, chapter)],
            ),
            cache,
        ),
{
}

/// Verses that were loaded once are there the next time: loading the same
/// chapter again hands back the same verses and changes nothing, whatever
/// has become of the document.
pub proof fn lemma_loaded_verses_are_kept(
    cache: Map<Seq<char>, Seq<VerseView>>,
    translation_id: Seq<char>,
    book_id: u32,
    chapter: u32,
    parsed: Parsed<Seq<VerseView>>,
    later: Parsed<Seq<VerseView>>,
)
    requires
        verses_outcome(cache, translation_id, book_id, chapter, parsed).0 is Ok,
    ensures
        ({
            let first = verses_outcome(cache, translation_id, book_id, chapter, parsed);
            verses_outcome(first.1, translation_id, book_id, chapter, later) == first
        }),
{
}

/// A search never drops or replaces verses that are kept.
pub proof fn lemma_search_keeps(
    cache: Map<Seq<char>, Seq<VerseView>>,
    targets: Seq<(u32, u32)>,
    count: int,
    events: Option<Seq<XmlEventView>>,
    translation_id: Seq<char>,
    query: Seq<char>,
)
    ensures
        keeps(cache, search_outcome(cache, targets, count, events, translation_id, query).1),
    decreases count,
{
    if count > 0 {
        lemma_search_keeps(cache, targets, count - 1, events, translation_id, query);
    }
}

/// What is parsed from a document may be handed to `load_books_with`.
pub proof fn lemma_parsed_books_fit(events: Option<Seq<XmlEventView>>)
    ensures
        books_fit(parsed_books(events)),
{
    if let Some(e) = events {
        if let Ok(counts) = chapter_counts_of_events(e) {
            lemma_observed_books_follow_catalog(counts);
        }
    }
}

/// What is parsed from a document may be handed to `load_verses_with`.
pub proof fn lemma_parsed_verses_fit(
    events: Option<Seq<XmlEventView>>,
    translation_id: Seq<char>,
    book_id: u32,
    chapter: u32,
)
    ensures
        verses_fit(
            parsed_verses(events, translation_id, book_id, chapter),
            translation_id,
            book_id,
            chapter,
        ),
{
    if let Some(e) = events {
        lemma_verses_belong(e, translation_id, book_id, chapter);
    }
}

/// Loading books keeps the kept books in their place and hands back a list
/// of books of the catalog in canonical order.
pub proof fn lemma_books_outcome_in_place(
    cache: Map<Seq<char>, Seq<BookView>>,
    translation_id: Seq<char>,
    parsed: Parsed<Seq<BookView>>,
)
    requires
        books_in_place(cache),
        books_fit(parsed),
    ensures
        books_in_place(books_outcome(cache, translation_id, parsed).1),
        follows_catalog(books_outcome(cache, translation_id, parsed).0),
{
    lemma_catalog_follows_catalog();
}

/// Loading verses keeps the kept verses in their place and hands back only
/// verses of the chapter that is asked for.
pub proof fn lemma_verses_outcome_in_place(
    cache: Map<Seq<char>, Seq<VerseView>>,
    translation_id: Seq<char>,
    book_id: u32,
    chapter: u32,
    parsed: Parsed<Seq<VerseView>>,
)
    requires
        verses_in_place(cache),
        verses_fit(parsed, translation_id, book_id, chapter),
    ensures
        verses_in_place(verses_outcome(cache, translation_id, book_id, chapter, parsed).1),
        verses_outcome(cache, translation_id, book_id, chapter, parsed).0 matches Ok(verses)
            ==> all_belong(verses, translation_id, book_id, chapter),
{
    let key = chapter_key(translation_id, book_id, chapter);
    let after = verses_outcome(cache, translation_id, book_id, chapter, parsed).1;
    assert forall|t: Seq<char>, b: u32, c: u32|
        after.contains_key(#[trigger] chapter_key(t, b, c)) implies all_belong(
        after[chapter_key(t, b, c)],
        t,
        b,
        c,
    ) by {
        if chapter_key(t, b, c) == key {
            lemma_chapter_key_is_injective(t, b, c, translation_id, book_id, chapter);
        }
    }
}

/// A search keeps the kept verses in their place, and every hit is a verse
/// of one of the chapters that the search looks at.
pub proof fn lemma_search_outcome_in_place(
    cache: Map<Seq<char>, Seq<VerseView>>,
    targets: Seq<(u32, u32)>,
    count: int,
    events: Option<Seq<XmlEventView>>,
    translation_id: Seq<char>,
    query: Seq<char>,
)
    requires
        verses_in_place(cache),
        count <= targets.len(),
    ensures
        verses_in_place(search_outcome(cache, targets, count, events, translation_id, query).1),
        forall|k: int|
            0 <= k < search_outcome(cache, targets, count, events, translation_id, query).0.len()
                ==> in_some_chapter(
                #[trigger] search_outcome(cache, targets, count, events, translation_id, query).0[k],
                translation_id,
                targets,
                count,
            ),
    decreases count,
{
    if count > 0 {
        lemma_search_outcome_in_place(cache, targets, count - 1, events, translation_id, query);
        let before = search_outcome(cache, targets, count - 1, events, translation_id, query);
        let target = targets[count - 1];
        let parsed = parsed_verses(events, translation_id, target.0, target.1);
        lemma_parsed_verses_fit(events, translation_id, target.0, target.1);
        lemma_verses_outcome_in_place(before.1, translation_id, target.0, target.1, parsed);
        let loaded = verses_outcome(before.1, translation_id, target.0, target.1, parsed);
        let found = hits_in(loaded.0, query);
        let all = search_outcome(cache, targets, count, events, translation_id, query).0;
        assert(all == before.0 + found);
        assert forall|k: int| 0 <= k < all.len() implies in_some_chapter(
            #[trigger] all[k],
            translation_id,
            targets,
            count,
        ) by {
            if k < before.0.len() {
                assert(all[k] == before.0[k]);
                let j = choose|j: int|
                    0 <= j < count - 1 && j < targets.len() && belongs_to(
                        before.0[k],
                        translation_id,
                        (#[trigger] targets[j]).0,
                        targets[j].1,
                    );
                assert(belongs_to(all[k], translation_id, targets[j].0, targets[j].1));
            } else {
                let hit = found[k - before.0.len()];
                assert(all[k] == hit);
                match loaded.0 {
                    Ok(verses) => {
                        assert(found.contains(hit));
                        verses.lemma_filter_contains_rev(holds_query(query), hit);
                        let i = choose|i: int| 0 <= i < verses.len() && verses[i] == hit;
                        assert(belongs_to(verses[i], translation_id, target.0, target.1));
                    },
                    Err(_) => {},
                }
                assert(belongs_to(hit, translation_id, targets[count - 1].0, targets[count - 1].1));
            }
        }
    }
}

/// Every hit of a search holds the query, letter case aside.
pub proof fn lemma_hits_hold_query(
    cache: Map<Seq<char>, Seq<VerseView>>,
    targets: Seq<(u32, u32)>,
    count: int,
    events: Option<Seq<XmlEventView>>,
    translation_id: Seq<char>,
    query: Seq<char>,
)
    ensures
        forall|k: int|
            0 <= k < search_outcome(cache, targets, count, events, translation_id, query).0.len()
                ==> holds_query(query)(
                #[trigger] search_outcome(cache, targets, count, events, translation_id, query).0[k],
            ),
    decreases count,
{
    if count > 0 {
        lemma_hits_hold_query(cache, targets, count - 1, events, translation_id, query);
        let before = search_outcome(cache, targets, count - 1, events, translation_id, query);
        let target = targets[count - 1];
        let loaded = verses_outcome(
            before.1,
            translation_id,
            target.0,
            target.1,
            parsed_verses(events, translation_id, target.0, target.1),
        );
        let found = hits_in(loaded.0, query);
        let all = search_outcome(cache, targets, count, events, translation_id, query).0;
        assert(all == before.0 + found);
        assert forall|k: int| 0 <= k < all.len() implies holds_query(query)(#[trigger] all[k]) by {
            if k < before.0.len() {
                assert(all[k] == before.0[k]);
            } else {
                assert(all[k] == found[k - before.0.len()]);
                match loaded.0 {
                    Ok(verses) => {
                        verses.lemma_filter_pred(holds_query(query), k - before.0.len());
                    },
                    Err(_) => {},
                }
            }
        }
    }
}

/// A search looks at no more than five books and at no more than three
/// chapters of each: every chapter that it looks at is one of the first
/// three chapters of one of the first five books, and there are at most
/// fifteen of them.
pub proof fn lemma_search_is_bounded(books: Seq<BookView>, count: int)
    requires
        0 <= count <= searched_books(books),
    ensures
        search_targets(books, count).len() <= 3 * count,
        forall|k: int|
            0 <= k < search_targets(books, count).len() ==> {
                let target = #[trigger] search_targets(books, count)[k];
                &&& 1 <= target.1 <= SEARCH_CHAPTERS
                &&& exists|i: int|
                    0 <= i < count && i < SEARCH_BOOKS && books[i].id == target.0 && target.1
                        <= books[i].chapter_count
            },
    decreases count,
{
    if count > 0 {
        lemma_search_is_bounded(books, count - 1);
        let before = search_targets(books, count - 1);
        let book = books[count - 1];
        let own = book_targets(book, searched_chapters(book));
        let all = search_targets(books, count);
        assert(all == before + own);
        assert forall|k: int| 0 <= k < all.len() implies {
            let target = #[trigger] all[k];
            &&& 1 <= target.1 <= SEARCH_CHAPTERS
            &&& exists|i: int|
                0 <= i < count && i < SEARCH_BOOKS && books[i].id == target.0 && target.1
                    <= books[i].chapter_count
        } by {
            if k < before.len() {
                assert(all[k] == before[k]);
                let i = choose|i: int|
                    0 <= i < count - 1 && i < SEARCH_BOOKS && books[i].id == before[k].0
                        && before[k].1 <= books[i].chapter_count;
                assert(0 <= i < count && i < SEARCH_BOOKS && books[i].id == all[k].0 && all[k].1
                    <= books[i].chapter_count);
            } else {
                assert(all[k] == own[k - before.len()]);
                assert(0 <= count - 1 < count && count - 1 < SEARCH_BOOKS && books[count - 1].id
                    == all[k].0 && all[k].1 <= books[count - 1].chapter_count);
            }
        }
    }
}

} // verus!
