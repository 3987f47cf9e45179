//! The content store: the translations of the resolved index, the download
//! addresses of their documents, and the books and verses parsed so far.
//!
//! The store does no reading or fetching. Where an operation needs the
//! document of a translation, the caller hands it over as bytes, or `None`
//! where the document has not been downloaded.

use crate::catalog::{catalog, follows_catalog, standard_books};
use crate::chapters::{books_of_events, books_result, parse_books};
use crate::data::{chapter_key, make_chapter_key};
use crate::elements::belongs_to;
use crate::index::{source_views, ResolvedIndex};
use crate::kept::{
    lemma_books_outcome_in_place, lemma_parsed_books_fit, lemma_parsed_verses_fit,
    lemma_search_outcome_in_place, lemma_verses_outcome_in_place,
};
use crate::markup::{parse_verses, verses_of_events, verses_result, ParseError, ParseErrorView};
use crate::text::{chars_of, contains, contains_text, lowercase, push_text};
use crate::textmap::TextMap;
use crate::types::{
    book_views, copy_books, copy_translations, copy_verses, lemma_verse_views_push,
    translation_views, verse_views, Book, BookView, Translation, TranslationView, Verse,
    VerseView,
};
use crate::xml::{document_events, XmlEventView};
use vstd::prelude::*;

verus! {

/// Why the store could not do what was asked.
#[derive(Debug, Clone, PartialEq)]
pub enum ServiceError {
    /// Verses were asked for before the document of the translation was
    /// downloaded.
    NotDownloaded,
    /// The index knows no download address for the translation.
    NoDownloadUrl,
    /// The document of the translation is not well-formed.
    ParseFailure(ParseError),
}

/// An error of the store with its texts as sequences of characters.
pub ghost enum ServiceErrorView {
    NotDownloaded,
    NoDownloadUrl,
    ParseFailure(ParseErrorView),
}

impl View for ServiceError {
    type V = ServiceErrorView;

    open spec fn view(&self) -> ServiceErrorView {
        match self {
            ServiceError::NotDownloaded => ServiceErrorView::NotDownloaded,
            ServiceError::NoDownloadUrl => ServiceErrorView::NoDownloadUrl,
            ServiceError::ParseFailure(e) => ServiceErrorView::ParseFailure(e@),
        }
    }
}

/// What is to be done to have the document of a translation.
#[derive(Debug, Clone, PartialEq)]
pub enum DownloadStep {
    /// The document is there already; nothing is fetched.
    UseExisting,
    /// The document is to be fetched from this address.
    Fetch(String),
}

/// The directory, below the program's data directory, that holds the
/// documents.
pub const DOCUMENT_DIRECTORY: &'static str = "translations";

/// The name of the file that holds the document of a translation.
pub open spec fn document_file_name_of(translation_id: Seq<char>) -> Seq<char> {
    translation_id + ".xml"@
}

/// The name of the file that holds the document of a translation: the id of
/// the translation with the ending `.xml`.
pub fn document_file_name(translation_id: &str) -> (name: String)
    ensures
        name@ == document_file_name_of(translation_id@),
{
    let mut name = translation_id.to_owned();
    push_text(&mut name, ".xml");
    name
}

// ---------------------------------------------------------------------------
// What the operations come to
// ---------------------------------------------------------------------------

/// What was parsed from a document, if there is a document.
pub type Parsed<T> = Option<Result<T, ParseErrorView>>;

/// What `load_books` hands back and keeps: `(books, cache)`.
///
/// Books that are kept for the translation are handed back. Otherwise the
/// books parsed from the document are handed back and kept, if the document
/// is there, is well-formed and refers to at least one book of the catalog.
/// In every other case the catalog is handed back and nothing is kept.
pub open spec fn books_outcome(
    cache: Map<Seq<char>, Seq<BookView>>,
    translation_id: Seq<char>,
    parsed: Parsed<Seq<BookView>>,
) -> (Seq<BookView>, Map<Seq<char>, Seq<BookView>>) {
    if cache.contains_key(translation_id) {
        (cache[translation_id], cache)
    } else {
        match parsed {
            Some(Ok(books)) => if books.len() > 0 {
                (books, cache.insert(translation_id, books))
            } else {
                (catalog(), cache)
            },
            _ => (catalog(), cache),
        }
    }
}

/// What `load_verses` hands back and keeps: `(result, cache)`.
///
/// Verses that are kept for the chapter are handed back. Otherwise the
/// document is needed: without it the result is `NotDownloaded`; a document
/// that is not well-formed gives `ParseFailure`; and the verses parsed from
/// a well-formed one are handed back and kept.
pub open spec fn verses_outcome(
    cache: Map<Seq<char>, Seq<VerseView>>,
    translation_id: Seq<char>,
    book_id: u32,
    chapter: u32,
    parsed: Parsed<Seq<VerseView>>,
) -> (Result<Seq<VerseView>, ServiceErrorView>, Map<Seq<char>, Seq<VerseView>>) {
    let key = chapter_key(translation_id, book_id, chapter);
    if cache.contains_key(key) {
        (Ok(cache[key]), cache)
    } else {
        match parsed {
            None => (Err(ServiceErrorView::NotDownloaded), cache),
            Some(Err(e)) => (Err(ServiceErrorView::ParseFailure(e)), cache),
            Some(Ok(verses)) => (Ok(verses), cache.insert(key, verses)),
        }
    }
}

/// The books parsed from the events of a document, if there is a document.
pub open spec fn parsed_books(events: Option<Seq<XmlEventView>>) -> Parsed<Seq<BookView>> {
    match events {
        Some(e) => Some(books_of_events(e)),
        None => None,
    }
}

/// The verses of a chapter parsed from the events of a document, if there is
/// a document.
pub open spec fn parsed_verses(
    events: Option<Seq<XmlEventView>>,
    translation_id: Seq<char>,
    book_id: u32,
    chapter: u32,
) -> Parsed<Seq<VerseView>> {
    match events {
        Some(e) => Some(verses_of_events(e, translation_id, book_id, chapter)),
        None => None,
    }
}

/// The events of a document, if there is a document.
pub open spec fn events_of(document: Option<&[u8]>) -> Option<Seq<XmlEventView>> {
    match document {
        Some(bytes) => Some(document_events(bytes@)),
        None => None,
    }
}

/// The view of what is handed to `load_books_with`.
pub open spec fn books_argument(parsed: Option<Result<Vec<Book>, ParseError>>) -> Parsed<
    Seq<BookView>,
> {
    match parsed {
        Some(r) => Some(books_result(r)),
        None => None,
    }
}

/// The view of what is handed to `load_verses_with`.
pub open spec fn verses_argument(parsed: Option<Result<Vec<Verse>, ParseError>>) -> Parsed<
    Seq<VerseView>,
> {
    match parsed {
        Some(r) => Some(verses_result(r)),
        None => None,
    }
}

/// The view of what `load_verses` returns.
pub open spec fn loaded_verses(r: Result<Vec<Verse>, ServiceError>) -> Result<
    Seq<VerseView>,
    ServiceErrorView,
> {
    match r {
        Ok(verses) => Ok(verse_views(verses@)),
        Err(e) => Err(e@),
    }
}

// ---------------------------------------------------------------------------
// What is kept is in its place
// ---------------------------------------------------------------------------

/// Every verse of a list is a verse of one chapter of one book of one
/// translation, with the identifier that goes with its place.
pub open spec fn all_belong(
    verses: Seq<VerseView>,
    translation_id: Seq<char>,
    book_id: u32,
    chapter: u32,
) -> bool {
    forall|k: int|
        0 <= k < verses.len() ==> belongs_to(#[trigger] verses[k], translation_id, book_id, chapter)
}

/// Every list of verses that is kept holds only verses of the chapter that
/// its key names.
pub open spec fn verses_in_place(cache: Map<Seq<char>, Seq<VerseView>>) -> bool {
    forall|translation_id: Seq<char>, book_id: u32, chapter: u32|
        cache.contains_key(#[trigger] chapter_key(translation_id, book_id, chapter)) ==> all_belong(
            cache[chapter_key(translation_id, book_id, chapter)],
            translation_id,
            book_id,
            chapter,
        )
}

/// Every list of books that is kept is a list of books of the catalog in
/// canonical order.
pub open spec fn books_in_place(cache: Map<Seq<char>, Seq<BookView>>) -> bool {
    forall|translation_id: Seq<char>| #[trigger]
        cache.contains_key(translation_id) ==> follows_catalog(cache[translation_id])
}

/// What may be handed to `load_books_with`: books, if any, are a list of
/// books of the catalog in canonical order, as `parse_books` gives them.
pub open spec fn books_fit(parsed: Parsed<Seq<BookView>>) -> bool {
    parsed matches Some(Ok(books)) ==> follows_catalog(books)
}

/// What may be handed to `load_verses_with`: verses, if any, are verses of
/// the chapter that is asked for, as `parse_verses` gives them.
pub open spec fn verses_fit(
    parsed: Parsed<Seq<VerseView>>,
    translation_id: Seq<char>,
    book_id: u32,
    chapter: u32,
) -> bool {
    parsed matches Some(Ok(verses)) ==> all_belong(verses, translation_id, book_id, chapter)
}

// ---------------------------------------------------------------------------
// Searching
// ---------------------------------------------------------------------------

/// How many books a search looks at.
pub const SEARCH_BOOKS: usize = 5;

/// How many chapters of a book a search looks at.
pub const SEARCH_CHAPTERS: u32 = 3;

/// The chapters of one book that a search looks at: the first three, or all
/// where the book has fewer.
pub open spec fn book_targets(book: BookView, count: int) -> Seq<(u32, u32)> {
    Seq::new(count as nat, |i: int| (book.id, (i + 1) as u32))
}

/// How many chapters of a book a search looks at.
pub open spec fn searched_chapters(book: BookView) -> int {
    if book.chapter_count < SEARCH_CHAPTERS {
        book.chapter_count as int
    } else {
        SEARCH_CHAPTERS as int
    }
}

/// The chapters that a search looks at among the first `count` books, book
/// after book.
pub open spec fn search_targets(books: Seq<BookView>, count: int) -> Seq<(u32, u32)>
    decreases count,
{
    if count <= 0 {
        Seq::empty()
    } else {
        search_targets(books, count - 1) + book_targets(
            books[count - 1],
            searched_chapters(books[count - 1]),
        )
    }
}

/// How many books of a list a search looks at: the first five, or all where
/// the list has fewer.
pub open spec fn searched_books(books: Seq<BookView>) -> int {
    if books.len() < SEARCH_BOOKS {
        books.len() as int
    } else {
        SEARCH_BOOKS as int
    }
}

/// A verse whose text holds the query, letter case aside.
pub open spec fn holds_query(query: Seq<char>) -> spec_fn(VerseView) -> bool {
    |v: VerseView| contains_text(lowercase(v.text), lowercase(query))
}

/// The hits among the verses that loading a chapter gave: none where it
/// failed.
pub open spec fn hits_in(loaded: Result<Seq<VerseView>, ServiceErrorView>, query: Seq<char>) -> Seq<
    VerseView,
> {
    match loaded {
        Ok(verses) => verses.filter(holds_query(query)),
        Err(_) => Seq::empty(),
    }
}

/// What searching the first `count` targets comes to: `(hits, cache)`. Each
/// chapter is loaded as `load_verses` loads it, so that it is kept; the hits
/// of the chapters follow one another in the order of the targets.
pub open spec fn search_outcome(
    cache: Map<Seq<char>, Seq<VerseView>>,
    targets: Seq<(u32, u32)>,
    count: int,
    events: Option<Seq<XmlEventView>>,
    translation_id: Seq<char>,
    query: Seq<char>,
) -> (Seq<VerseView>, Map<Seq<char>, Seq<VerseView>>)
    decreases count,
{
    if count <= 0 {
        (Seq::empty(), cache)
    } else {
        let before = search_outcome(cache, targets, count - 1, events, translation_id, query);
        let target = targets[count - 1];
        let loaded = verses_outcome(
            before.1,
            translation_id,
            target.0,
            target.1,
            parsed_verses(events, translation_id, target.0, target.1),
        );
        (before.0 + hits_in(loaded.0, query), loaded.1)
    }
}

/// A verse of one of the first `count` chapters that a search looks at.
pub open spec fn in_some_chapter(
    verse: VerseView,
    translation_id: Seq<char>,
    targets: Seq<(u32, u32)>,
    count: int,
) -> bool {
    exists|j: int|
        0 <= j < count && j < targets.len() && belongs_to(
            verse,
            translation_id,
            (#[trigger] targets[j]).0,
            targets[j].1,
        )
}

/// The chapters that a search looks at.
fn targets_of(books: &Vec<Book>) -> (targets: Vec<(u32, u32)>)
    ensures
        targets@ == search_targets(book_views(books@), searched_books(book_views(books@))),
{
    let ghost views = book_views(books@);
    let limit: usize = if books.len() < SEARCH_BOOKS {
        books.len()
    } else {
        SEARCH_BOOKS
    };
    assert(views.len() == books@.len());
    let mut targets: Vec<(u32, u32)> = Vec::new();
    let mut i: usize = 0;
    while i < limit
        invariant
            i <= limit <= books.len(),
            views == book_views(books@),
            targets@ == search_targets(views, i as int),
        decreases limit - i,
    {
        let book = &books[i];
        let chapters: u32 = if book.chapter_count < SEARCH_CHAPTERS {
            book.chapter_count
        } else {
            SEARCH_CHAPTERS
        };
        let ghost done = search_targets(views, i as int);
        assert(views[i as int] == book@);
        let mut c: u32 = 0;
        assert(targets@ =~= done + book_targets(book@, 0));
        while c < chapters
            invariant
                c <= chapters <= SEARCH_CHAPTERS,
                targets@ == done + book_targets(book@, c as int),
            decreases chapters - c,
        {
            targets.push((book.id, c + 1));
            assert(book_targets(book@, c + 1) =~= book_targets(book@, c as int).push(
                (book.id, (c + 1) as u32),
            ));
            assert(done + book_targets(book@, c + 1) =~= (done + book_targets(
                book@,
                c as int,
            )).push((book.id, (c + 1) as u32)));
            c += 1;
        }
        i += 1;
    }
    targets
}

/// The verses among `verses` whose text holds the query, letter case aside.
fn hits_among(verses: &Vec<Verse>, lowered_query: &Vec<char>, Ghost(query): Ghost<Seq<char>>) -> (hits:
    Vec<Verse>)
    requires
        lowered_query@ == lowercase(query),
    ensures
        verse_views(hits@) == verse_views(verses@).filter(holds_query(query)),
{
    let ghost wanted = holds_query(query);
    let mut hits: Vec<Verse> = Vec::new();
    let mut i: usize = 0;
    proof {
        assert(verse_views(verses@.take(0)) =~= Seq::<VerseView>::empty());
        assert(verse_views(hits@) =~= Seq::<VerseView>::empty());
        assert(Seq::<VerseView>::empty().filter(wanted) =~= Seq::<VerseView>::empty()) by {
            reveal(Seq::filter);
        }
    }
    while i < verses.len()
        invariant
            i <= verses.len(),
            lowered_query@ == lowercase(query),
            wanted == holds_query(query),
            verse_views(hits@) == verse_views(verses@.take(i as int)).filter(wanted),
        decreases verses.len() - i,
    {
        proof {
            assert(verses@.take(i + 1) == verses@.take(i as int).push(verses@[i as int]));
            lemma_verse_views_push(verses@.take(i as int), verses@[i as int]);
            verse_views(verses@.take(i as int)).lemma_filter_push(verses@[i as int]@, wanted);
        }
        let lowered = verses[i].text.as_str().to_lowercase();
        let text = chars_of(lowered.as_str());
        if contains(&text, lowered_query) {
            let hit = verses[i].clone();
            proof {
                lemma_verse_views_push(hits@, hit);
            }
            hits.push(hit);
        }
        i += 1;
    }
    assert(verses@.take(verses.len() as int) == verses@);
    hits
}

// ---------------------------------------------------------------------------
// The store
// ---------------------------------------------------------------------------

/// The books of a cache as views.
pub open spec fn book_cache_views(cache: Map<Seq<char>, Vec<Book>>) -> Map<
    Seq<char>,
    Seq<BookView>,
> {
    cache.map_values(|books: Vec<Book>| book_views(books@))
}

/// The verses of a cache as views.
pub open spec fn verse_cache_views(cache: Map<Seq<char>, Vec<Verse>>) -> Map<
    Seq<char>,
    Seq<VerseView>,
> {
    cache.map_values(|verses: Vec<Verse>| verse_views(verses@))
}

/// The content store.
pub struct BibleService {
    translations: Vec<Translation>,
    books_cache: TextMap<Vec<Book>>,
    verses_cache: TextMap<Vec<Verse>>,
    sources: TextMap<Option<String>>,
}

impl BibleService {
    /// What is kept is in its place: every list of books is a list of books
    /// of the catalog in canonical order, and every list of verses holds only
    /// verses of the chapter that its key names.
    #[verifier::type_invariant]
    spec fn keeps_in_place(&self) -> bool {
        &&& books_in_place(book_cache_views(self.books_cache@))
        &&& verses_in_place(verse_cache_views(self.verses_cache@))
    }

    /// The translations of the index that was loaded last.
    pub closed spec fn translations(&self) -> Seq<TranslationView> {
        translation_views(self.translations@)
    }

    /// The download addresses of the index that was loaded last, by
    /// translation id.
    pub closed spec fn sources(&self) -> Map<Seq<char>, Option<Seq<char>>> {
        source_views(self.sources@)
    }

    /// The ids that have an entry in the index, in the order of the index.
    pub closed spec fn source_ids(&self) -> Seq<Seq<char>> {
        self.sources.keys()
    }

    /// The books that are kept, by translation id.
    pub closed spec fn cached_books(&self) -> Map<Seq<char>, Seq<BookView>> {
        book_cache_views(self.books_cache@)
    }

    /// The verses that are kept, by chapter key.
    pub closed spec fn cached_verses(&self) -> Map<Seq<char>, Seq<VerseView>> {
        verse_cache_views(self.verses_cache@)
    }

    /// A store that knows no translation and keeps nothing.
    pub fn new() -> (service: Self)
        ensures
            service.translations() == Seq::<TranslationView>::empty(),
            service.sources() == Map::<Seq<char>, Option<Seq<char>>>::empty(),
            service.source_ids() == Seq::<Seq<char>>::empty(),
            service.cached_books() == Map::<Seq<char>, Seq<BookView>>::empty(),
            service.cached_verses() == Map::<Seq<char>, Seq<VerseView>>::empty(),
    {
        let service = BibleService {
            translations: Vec::new(),
            books_cache: TextMap::new(),
            verses_cache: TextMap::new(),
            sources: TextMap::new(),
        };
        proof {
            assert(service.translations() =~= Seq::<TranslationView>::empty());
            assert(service.sources() =~= Map::<Seq<char>, Option<Seq<char>>>::empty());
            assert(service.cached_books() =~= Map::<Seq<char>, Seq<BookView>>::empty());
            assert(service.cached_verses() =~= Map::<Seq<char>, Seq<VerseView>>::empty());
        }
        service
    }

    /// Takes a resolved index as the one to work with: its translations and
    /// its download addresses replace those known before. What is kept of
    /// books and verses stays. The translations are handed back.
    pub fn load_translations(&mut self, index: ResolvedIndex) -> (list: Vec<Translation>)
        ensures
            translation_views(list@) == translation_views(index.translations@),
            final(self).translations() == translation_views(index.translations@),
            final(self).sources() == source_views(index.sources@),
            final(self).source_ids() == index.sources.keys(),
            final(self).cached_books() == old(self).cached_books(),
            final(self).cached_verses() == old(self).cached_verses(),
    {
        proof {
            use_type_invariant(&*self);
        }
        let list = copy_translations(&index.translations);
        self.translations = index.translations;
        self.sources = index.sources;
        list
    }

    /// What is to be done to have the document of a translation.
    ///
    /// Without a download address in the index there is nothing to be done:
    /// the result is `NoDownloadUrl`, whether or not a document is there. With
    /// one, a document that is there is used as it is, and only a missing one
    /// is fetched.
    pub fn download_translation_xml(&self, translation_id: &str, already_present: bool) -> (r:
        Result<DownloadStep, ServiceError>)
        ensures
            match self.sources().get(translation_id@) {
                Some(Some(address)) => if already_present {
                    r == Ok::<DownloadStep, ServiceError>(DownloadStep::UseExisting)
                } else {
                    r matches Ok(DownloadStep::Fetch(from)) && from@ == address
                },
                _ => r == Err::<DownloadStep, ServiceError>(ServiceError::NoDownloadUrl),
            },
    {
        match self.sources.get(translation_id) {
            Some(Some(address)) => {
                if already_present {
                    Ok(DownloadStep::UseExisting)
                } else {
                    Ok(DownloadStep::Fetch(address.clone()))
                }
            },
            _ => Err(ServiceError::NoDownloadUrl),
        }
    }

    /// The translation whose document is to be downloaded so that there is
    /// something to read: the first of the index, unless the index could not
    /// be refreshed or some document is there already.
    pub fn ensure_default_translation(&self, index_refreshed: bool, document_present: bool) -> (r:
        Option<String>)
        ensures
            match r {
                Some(id) => {
                    &&& index_refreshed
                    &&& !document_present
                    &&& self.source_ids().len() > 0
                    &&& id@ == self.source_ids()[0]
                },
                None => !index_refreshed || document_present || self.source_ids().len() == 0,
            },
    {
        if !index_refreshed || document_present {
            return None;
        }
        match self.sources.first_key() {
            Some(id) => Some(id.clone()),
            None => None,
        }
    }

    /// Whether books are kept for a translation, so that `load_books` will not
    /// look at its document.
    pub fn has_books(&self, translation_id: &str) -> (r: bool)
        ensures
            r == self.cached_books().contains_key(translation_id@),
    {
        self.books_cache.contains_key(translation_id)
    }

    /// Whether the verses of a chapter are kept, so that `load_verses` will
    /// not look at the document.
    pub fn has_verses(&self, translation_id: &str, book_id: u32, chapter: u32) -> (r: bool)
        ensures
            r == self.cached_verses().contains_key(chapter_key(translation_id@, book_id, chapter)),
    {
        let key = make_chapter_key(translation_id, book_id, chapter);
        self.verses_cache.contains_key(key.as_str())
    }

    /// `load_books` with the outcome of parsing in place of the document:
    /// `parsed` is what `parse_books` gave for the document, `None` where no
    /// document is there. Books that are handed over are a list of books of
    /// the catalog in canonical order, so that what is kept is such a list.
    pub fn load_books_with(
        &mut self,
        translation_id: &str,
        parsed: Option<Result<Vec<Book>, ParseError>>,
    ) -> (books: Vec<Book>)
        requires
            books_fit(books_argument(parsed)),
        ensures
            (book_views(books@), final(self).cached_books()) == books_outcome(
                old(self).cached_books(),
                translation_id@,
                books_argument(parsed),
            ),
            follows_catalog(book_views(books@)),
            books_in_place(final(self).cached_books()),
            final(self).translations() == old(self).translations(),
            final(self).sources() == old(self).sources(),
            final(self).source_ids() == old(self).source_ids(),
            final(self).cached_verses() == old(self).cached_verses(),
    {
        proof {
            use_type_invariant(&*self);
            lemma_books_outcome_in_place(
                self.cached_books(),
                translation_id@,
                books_argument(parsed),
            );
        }
        match self.books_cache.get(translation_id) {
            Some(kept) => {
                return copy_books(kept);
            },
            None => {},
        }
        match parsed {
            Some(Ok(books)) => {
                if books.len() > 0 {
                    let list = copy_books(&books);
                    proof {
                        assert(book_views(books@).len() == books@.len());
                        assert(book_cache_views(self.books_cache@.insert(translation_id@, books))
                            =~= book_cache_views(self.books_cache@).insert(
                            translation_id@,
                            book_views(books@),
                        ));
                    }
                    let mut cache = TextMap::new();
                    std::mem::swap(&mut cache, &mut self.books_cache);
                    cache.insert(translation_id.to_owned(), books);
                    self.books_cache = cache;
                    list
                } else {
                    proof {
                        assert(book_views(books@).len() == books@.len());
                    }
                    standard_books()
                }
            },
            _ => standard_books(),
        }
    }

    /// The books of a translation. `document` is the document of the
    /// translation, `None` where it has not been downloaded.
    ///
    /// Books that are kept are handed back. Otherwise, the books that the
    /// document refers to are handed back and kept: the books of the catalog
    /// with a reference in the document, in canonical order, each with the
    /// largest chapter number found as its number of chapters. Without a
    /// document, or where the document is not well-formed or refers to no
    /// book, the catalog is handed back and nothing is kept.
    pub fn load_books(&mut self, translation_id: &str, document: Option<&[u8]>) -> (books: Vec<
        Book,
    >)
        ensures
            (book_views(books@), final(self).cached_books()) == books_outcome(
                old(self).cached_books(),
                translation_id@,
                parsed_books(events_of(document)),
            ),
            follows_catalog(book_views(books@)),
            books_in_place(final(self).cached_books()),
            final(self).translations() == old(self).translations(),
            final(self).sources() == old(self).sources(),
            final(self).source_ids() == old(self).source_ids(),
            final(self).cached_verses() == old(self).cached_verses(),
    {
        if self.books_cache.contains_key(translation_id) {
            return self.load_books_with(translation_id, None);
        }
        let parsed = match document {
            Some(bytes) => Some(parse_books(bytes)),
            None => None,
        };
        proof {
            lemma_parsed_books_fit(events_of(document));
        }
        self.load_books_with(translation_id, parsed)
    }

    /// `load_verses` with the outcome of parsing in place of the document:
    /// `parsed` is what `parse_verses` gave for the document, `None` where no
    /// document is there. Verses that are handed over are verses of the
    /// chapter that is asked for, so that what is kept under the key of a
    /// chapter are verses of that chapter.
    pub fn load_verses_with(
        &mut self,
        translation_id: &str,
        book_id: u32,
        chapter: u32,
        parsed: Option<Result<Vec<Verse>, ParseError>>,
    ) -> (r: Result<Vec<Verse>, ServiceError>)
        requires
            verses_fit(verses_argument(parsed), translation_id@, book_id, chapter),
        ensures
            (loaded_verses(r), final(self).cached_verses()) == verses_outcome(
                old(self).cached_verses(),
                translation_id@,
                book_id,
                chapter,
                verses_argument(parsed),
            ),
            r matches Ok(verses) ==> all_belong(
                verse_views(verses@),
                translation_id@,
                book_id,
                chapter,
            ),
            verses_in_place(final(self).cached_verses()),
            final(self).translations() == old(self).translations(),
            final(self).sources() == old(self).sources(),
            final(self).source_ids() == old(self).source_ids(),
            final(self).cached_books() == old(self).cached_books(),
    {
        proof {
            use_type_invariant(&*self);
            lemma_verses_outcome_in_place(
                self.cached_verses(),
                translation_id@,
                book_id,
                chapter,
                verses_argument(parsed),
            );
        }
        let key = make_chapter_key(translation_id, book_id, chapter);
        match self.verses_cache.get(key.as_str()) {
            Some(kept) => {
                return Ok(copy_verses(kept));
            },
            None => {},
        }
        match parsed {
            None => Err(ServiceError::NotDownloaded),
            Some(Err(e)) => Err(ServiceError::ParseFailure(e)),
            Some(Ok(verses)) => {
                let list = copy_verses(&verses);
                proof {
                    assert(verse_cache_views(self.verses_cache@.insert(key@, verses))
                        =~= verse_cache_views(self.verses_cache@).insert(
                        key@,
                        verse_views(verses@),
                    ));
                }
                let mut cache = TextMap::new();
                std::mem::swap(&mut cache, &mut self.verses_cache);
                cache.insert(key, verses);
                self.verses_cache = cache;
                Ok(list)
            },
        }
    }

    /// The verses of one chapter of one book of a translation. `document` is
    /// the document of the translation, `None` where it has not been
    /// downloaded.
    ///
    /// Verses that are kept are handed back. Otherwise the document is
    /// needed: without it the result is `NotDownloaded`. The verses of the
    /// chapter are parsed from the document, kept and handed back, in the
    /// order of the document; a document that is not well-formed gives
    /// `ParseFailure`.
    pub fn load_verses(
        &mut self,
        translation_id: &str,
        book_id: u32,
        chapter: u32,
        document: Option<&[u8]>,
    ) -> (r: Result<Vec<Verse>, ServiceError>)
        ensures
            (loaded_verses(r), final(self).cached_verses()) == verses_outcome(
                old(self).cached_verses(),
                translation_id@,
                book_id,
                chapter,
                parsed_verses(events_of(document), translation_id@, book_id, chapter),
            ),
            r matches Ok(verses) ==> all_belong(
                verse_views(verses@),
                translation_id@,
                book_id,
                chapter,
            ),
            verses_in_place(final(self).cached_verses()),
            final(self).translations() == old(self).translations(),
            final(self).sources() == old(self).sources(),
            final(self).source_ids() == old(self).source_ids(),
            final(self).cached_books() == old(self).cached_books(),
    {
        let key = make_chapter_key(translation_id, book_id, chapter);
        if self.verses_cache.contains_key(key.as_str()) {
            return self.load_verses_with(translation_id, book_id, chapter, None);
        }
        let parsed = match document {
            Some(bytes) => Some(parse_verses(bytes, translation_id, book_id, chapter)),
            None => None,
        };
        proof {
            lemma_parsed_verses_fit(events_of(document), translation_id@, book_id, chapter);
        }
        self.load_verses_with(translation_id, book_id, chapter, parsed)
    }

    /// The verses of a translation whose text holds the query, letter case
    /// aside. `document` is the document of the translation, `None` where it
    /// has not been downloaded.
    ///
    /// The search is bounded: of the books that `load_books` gives, only the
    /// first five are looked at, and of each only the first three chapters.
    /// Each chapter is loaded as `load_verses` loads it; a chapter that cannot
    /// be loaded has no hits. The hits come in the order of books, chapters
    /// and verses, and every hit is a verse of one of the chapters looked at.
    pub fn search_verses(&mut self, translation_id: &str, query: &str, document: Option<&[u8]>) -> (
    hits: Vec<Verse>)
        ensures
            ({
                let books = books_outcome(
                    old(self).cached_books(),
                    translation_id@,
                    parsed_books(events_of(document)),
                );
                let targets = search_targets(books.0, searched_books(books.0));
                let found = search_outcome(
                    old(self).cached_verses(),
                    targets,
                    targets.len() as int,
                    events_of(document),
                    translation_id@,
                    query@,
                );
                &&& final(self).cached_books() == books.1
                &&& verse_views(hits@) == found.0
                &&& final(self).cached_verses() == found.1
                &&& forall|k: int|
                    0 <= k < hits@.len() ==> in_some_chapter(
                        #[trigger] verse_views(hits@)[k],
                        translation_id@,
                        targets,
                        targets.len() as int,
                    )
            }),
            books_in_place(final(self).cached_books()),
            verses_in_place(final(self).cached_verses()),
            final(self).translations() == old(self).translations(),
            final(self).sources() == old(self).sources(),
            final(self).source_ids() == old(self).source_ids(),
    {
        let lowered = query.to_lowercase();
        let lowered_query = chars_of(lowered.as_str());
        let books = self.load_books(translation_id, document);
        let targets = targets_of(&books);
        let ghost start = self.cached_verses();
        let ghost events = events_of(document);
        proof {
            use_type_invariant(&*self);
            lemma_search_outcome_in_place(
                start,
                targets@,
                targets@.len() as int,
                events,
                translation_id@,
                query@,
            );
        }
        let mut hits: Vec<Verse> = Vec::new();
        let mut i: usize = 0;
        proof {
            assert(verse_views(hits@) =~= Seq::<VerseView>::empty());
        }
        while i < targets.len()
            invariant
                i <= targets.len(),
                lowered_query@ == lowercase(query@),
                events == events_of(document),
                (verse_views(hits@), self.cached_verses()) == search_outcome(
                    start,
                    targets@,
                    i as int,
                    events,
                    translation_id@,
                    query@,
                ),
                self.translations() == old(self).translations(),
                self.sources() == old(self).sources(),
                self.source_ids() == old(self).source_ids(),
                self.cached_books() == books_outcome(
                    old(self).cached_books(),
                    translation_id@,
                    parsed_books(events_of(document)),
                ).1,
            decreases targets.len() - i,
        {
            let (book_id, chapter) = targets[i];
            let loaded = self.load_verses(translation_id, book_id, chapter, document);
            match loaded {
                Ok(verses) => {
                    let mut found = hits_among(&verses, &lowered_query, Ghost(query@));
                    proof {
                        assert(verse_views(hits@ + found@) =~= verse_views(hits@) + verse_views(
                            found@,
                        ));
                    }
                    hits.append(&mut found);
                },
                Err(_) => {
                    proof {
                        assert(verse_views(hits@) + Seq::<VerseView>::empty() =~= verse_views(
                            hits@,
                        ));
                    }
                },
            }
            i += 1;
        }
        hits
    }
}

} // verus!
