//! The data manager: translations, books and verses that were loaded, and the
//! bookmarks and highlights of the reader.

use crate::text::{decimal, push_decimal, push_text, same_text};
use crate::textmap::TextMap;
use crate::types::{
    book_views, copy_books, copy_verses, lemma_verse_views_push, verse_views, Book, Bookmark,
    SearchResult, TextHighlight, Translation, Verse, VerseView,
};
use vstd::prelude::*;

verus! {

/// Why the data manager could not load something.
#[derive(Debug, Clone, Copy, PartialEq, Eq)]
pub enum DataError {
    /// No data is bundled for the translation.
    TranslationNotFound,
    /// The bundled data could not be read.
    Unreadable,
}

/// The key under which the verses of one chapter are kept: translation, book
/// and chapter, joined by underscores.
pub open spec fn chapter_key(translation_id: Seq<char>, book_id: u32, chapter: u32) -> Seq<char> {
    translation_id + seq!['_'] + decimal(book_id as nat) + seq!['_'] + decimal(chapter as nat)
}

/// The key under which the verses of one chapter are kept.
pub fn make_chapter_key(translation_id: &str, book_id: u32, chapter: u32) -> (key: String)
    ensures
        key@ == chapter_key(translation_id@, book_id, chapter),
{
    let mut key = String::new();
    push_text(&mut key, translation_id);
    key.push('_');
    push_decimal(&mut key, book_id as u64);
    key.push('_');
    push_decimal(&mut key, chapter as u64);
    assert(key@ =~= chapter_key(translation_id@, book_id, chapter));
    key
}

/// Whether books are bundled for a translation: for `kjv` and `tamil`.
pub open spec fn has_bundled_books(translation_id: Seq<char>) -> bool {
    translation_id == "kjv"@ || translation_id == "tamil"@
}

/// Whether verses are bundled for a translation: for `kjv`, `tamil`, `niv`
/// and `nkjv`.
pub open spec fn has_bundled_verses(translation_id: Seq<char>) -> bool {
    translation_id == "kjv"@ || translation_id == "tamil"@ || translation_id == "niv"@
        || translation_id == "nkjv"@
}

/// A verse of the wanted chapter.
pub open spec fn in_chapter(book_id: u32, chapter: u32) -> spec_fn(VerseView) -> bool {
    |v: VerseView| v.book_id == book_id && v.chapter == chapter
}

/// The verses of one chapter among `all`, in their order.
pub fn verses_of_chapter(all: &Vec<Verse>, book_id: u32, chapter: u32) -> (r: Vec<Verse>)
    ensures
        verse_views(r@) == verse_views(all@).filter(in_chapter(book_id, chapter)),
{
    let ghost wanted = in_chapter(book_id, chapter);
    let mut r: Vec<Verse> = Vec::new();
    let mut i: usize = 0;
    proof {
        assert(verse_views(all@.take(0)) =~= Seq::<VerseView>::empty());
        assert(verse_views(r@) =~= Seq::<VerseView>::empty());
        assert(Seq::<VerseView>::empty().filter(wanted) =~= Seq::<VerseView>::empty()) by {
            reveal(Seq::filter);
        }
    }
    while i < all.len()
        invariant
            i <= all.len(),
            wanted == in_chapter(book_id, chapter),
            verse_views(r@) == verse_views(all@.take(i as int)).filter(wanted),
        decreases all.len() - i,
    {
        proof {
            assert(all@.take(i + 1) == all@.take(i as int).push(all@[i as int]));
            lemma_verse_views_push(all@.take(i as int), all@[i as int]);
            verse_views(all@.take(i as int)).lemma_filter_push(all@[i as int]@, wanted);
        }
        if all[i].book_id == book_id && all[i].chapter == chapter {
            let item = all[i].clone();
            proof {
                lemma_verse_views_push(r@, item);
            }
            r.push(item);
        }
        i += 1;
    }
    assert(all@.take(all.len() as int) == all@);
    r
}

/// Something that is known by an identifier.
pub trait Identified {
    /// The identifier.
    spec fn id_text(&self) -> Seq<char>;

    /// Whether the identifier is `id`.
    fn has_id(&self, id: &String) -> (r: bool)
        ensures
            r == (self.id_text() == id@),
    ;
}

impl Identified for Bookmark {
    open spec fn id_text(&self) -> Seq<char> {
        self.id@
    }

    fn has_id(&self, id: &String) -> (r: bool) {
        self.id == *id
    }
}

impl Identified for TextHighlight {
    open spec fn id_text(&self) -> Seq<char> {
        self.id@
    }

    fn has_id(&self, id: &String) -> (r: bool) {
        self.id == *id
    }
}

/// An item that is not known by `id`.
pub open spec fn other_than<T: Identified>(id: Seq<char>) -> spec_fn(T) -> bool {
    |item: T| item.id_text() != id
}

/// Takes the items known by `id` out of a list; the others keep their order.
pub fn remove_with_id<T: Identified>(list: &mut Vec<T>, id: &str)
    ensures
        final(list)@ == old(list)@.filter(other_than::<T>(id@)),
{
    let owned = id.to_owned();
    let ghost before = list@;
    let ghost keeps = other_than::<T>(id@);
    let ghost mut seen: int = 0;
    let mut i: usize = 0;
    proof {
        assert(list@.take(0) =~= Seq::<T>::empty());
        assert(before.take(0) =~= Seq::<T>::empty());
        assert(Seq::<T>::empty().filter(keeps) =~= Seq::<T>::empty()) by {
            reveal(Seq::filter);
        }
        assert(list@.skip(0) == before.skip(0));
    }
    while i < list.len()
        invariant
            i <= list@.len(),
            0 <= seen <= before.len(),
            owned@ == id@,
            keeps == other_than::<T>(id@),
            list@.take(i as int) == before.take(seen).filter(keeps),
            list@.skip(i as int) == before.skip(seen),
        decreases list@.len() - i,
    {
        let ghost current = list@;
        proof {
            assert(current.skip(i as int)[0] == current[i as int]);
            assert(before.skip(seen).len() > 0);
            assert(before.skip(seen)[0] == before[seen]);
            assert(before.take(seen + 1) == before.take(seen).push(before[seen]));
            before.take(seen).lemma_filter_push(before[seen], keeps);
        }
        if list[i].has_id(&owned) {
            list.remove(i);
            proof {
                assert(list@.take(i as int) == current.take(i as int));
                assert(list@.skip(i as int) == current.skip(i as int).drop_first());
                assert(before.skip(seen).drop_first() == before.skip(seen + 1));
            }
        } else {
            proof {
                assert(current.take(i + 1) == current.take(i as int).push(current[i as int]));
                assert(current.skip(i + 1) == current.skip(i as int).drop_first());
                assert(before.skip(seen).drop_first() == before.skip(seen + 1));
            }
            i += 1;
        }
        proof {
            seen = seen + 1;
        }
    }
    proof {
        assert(list@.take(i as int) == list@);
        assert(list@.skip(i as int).len() == 0);
        assert(before.skip(seen).len() == 0);
        assert(before.take(seen) == before);
    }
}

/// A highlight of one verse.
pub open spec fn on_verse(
    translation_id: Seq<char>,
    book_id: u32,
    chapter: u32,
    verse: u32,
) -> spec_fn(TextHighlight) -> bool {
    |h: TextHighlight|
        h.translation_id@ == translation_id && h.book_id == book_id && h.chapter == chapter
            && h.verse == verse
}

/// The data manager.
pub struct BibleDataManager {
    translations: Vec<Translation>,
    books: TextMap<Vec<Book>>,
    verses: TextMap<Vec<Verse>>,
    bookmarks: Vec<Bookmark>,
    highlights: Vec<TextHighlight>,
}

impl BibleDataManager {
    /// The translations that were loaded.
    pub closed spec fn translation_list(&self) -> Seq<Translation> {
        self.translations@
    }

    /// The books that were loaded, by translation.
    pub closed spec fn book_lists(&self) -> Map<Seq<char>, Vec<Book>> {
        self.books@
    }

    /// The verses that were loaded, by chapter key.
    pub closed spec fn verse_lists(&self) -> Map<Seq<char>, Vec<Verse>> {
        self.verses@
    }

    /// The bookmarks, oldest first.
    pub closed spec fn bookmark_list(&self) -> Seq<Bookmark> {
        self.bookmarks@
    }

    /// The highlights, oldest first.
    pub closed spec fn highlight_list(&self) -> Seq<TextHighlight> {
        self.highlights@
    }

    /// A manager that holds nothing.
    pub fn new() -> (manager: Self)
        ensures
            manager.translation_list() == Seq::<Translation>::empty(),
            manager.book_lists() == Map::<Seq<char>, Vec<Book>>::empty(),
            manager.verse_lists() == Map::<Seq<char>, Vec<Verse>>::empty(),
            manager.bookmark_list() == Seq::<Bookmark>::empty(),
            manager.highlight_list() == Seq::<TextHighlight>::empty(),
    {
        BibleDataManager {
            translations: Vec::new(),
            books: TextMap::new(),
            verses: TextMap::new(),
            bookmarks: Vec::new(),
            highlights: Vec::new(),
        }
    }

    /// Takes the translations of the bundled index as the loaded ones.
    pub fn load_translations(&mut self, translations: Vec<Translation>)
        ensures
            final(self).translation_list() == translations@,
            final(self).book_lists() == old(self).book_lists(),
            final(self).verse_lists() == old(self).verse_lists(),
            final(self).bookmark_list() == old(self).bookmark_list(),
            final(self).highlight_list() == old(self).highlight_list(),
    {
        self.translations = translations;
    }

    /// Loads the bundled books of a translation. `bundled` is what was read
    /// from the bundled data, `None` where it could not be read. Only `kjv`
    /// and `tamil` have bundled books. The books are kept and handed back.
    pub fn load_books(&mut self, translation_id: &str, bundled: Option<Vec<Book>>) -> (r: Result<
        Vec<Book>,
        DataError,
    >)
        ensures
            final(self).translation_list() == old(self).translation_list(),
            final(self).verse_lists() == old(self).verse_lists(),
            final(self).bookmark_list() == old(self).bookmark_list(),
            final(self).highlight_list() == old(self).highlight_list(),
            !has_bundled_books(translation_id@) ==> r == Err::<Vec<Book>, DataError>(
                DataError::TranslationNotFound,
            ) && final(self).book_lists() == old(self).book_lists(),
            has_bundled_books(translation_id@) ==> match bundled {
                Some(books) => {
                    &&& r matches Ok(list)
                    &&& book_views(list@) == book_views(books@)
                    &&& final(self).book_lists() == old(self).book_lists().insert(
                        translation_id@,
                        books,
                    )
                },
                None => {
                    &&& r == Err::<Vec<Book>, DataError>(DataError::Unreadable)
                    &&& final(self).book_lists() == old(self).book_lists()
                },
            },
    {
        if !(same_text(translation_id, "kjv") || same_text(translation_id, "tamil")) {
            return Err(DataError::TranslationNotFound);
        }
        match bundled {
            Some(books) => {
                let list = copy_books(&books);
                self.books.insert(translation_id.to_owned(), books);
                Ok(list)
            },
            None => Err(DataError::Unreadable),
        }
    }

    /// Loads the verses of one chapter. Verses that were loaded before are
    /// handed back as they are kept. Otherwise `bundled` is what was read from
    /// the bundled data of the translation, `None` where it could not be
    /// read; only `kjv`, `tamil`, `niv` and `nkjv` have bundled verses. The
    /// verses of the chapter are picked out, kept and handed back.
    pub fn load_verses(
        &mut self,
        translation_id: &str,
        book_id: u32,
        chapter: u32,
        bundled: Option<Vec<Verse>>,
    ) -> (r: Result<Vec<Verse>, DataError>)
        ensures
            final(self).translation_list() == old(self).translation_list(),
            final(self).book_lists() == old(self).book_lists(),
            final(self).bookmark_list() == old(self).bookmark_list(),
            final(self).highlight_list() == old(self).highlight_list(),
            ({
                let key = chapter_key(translation_id@, book_id, chapter);
                if old(self).verse_lists().contains_key(key) {
                    &&& r matches Ok(list)
                    &&& verse_views(list@) == verse_views(old(self).verse_lists()[key]@)
                    &&& final(self).verse_lists() == old(self).verse_lists()
                } else if !has_bundled_verses(translation_id@) {
                    &&& r == Err::<Vec<Verse>, DataError>(DataError::TranslationNotFound)
                    &&& final(self).verse_lists() == old(self).verse_lists()
                } else {
                    match bundled {
                        Some(all) => {
                            &&& r matches Ok(list)
                            &&& verse_views(list@) == verse_views(all@).filter(
                                in_chapter(book_id, chapter),
                            )
                            &&& final(self).verse_lists().dom() == old(
                                self,
                            ).verse_lists().dom().insert(key)
                            &&& verse_views(final(self).verse_lists()[key]@) == verse_views(list@)
                            &&& forall|other: Seq<char>|
                                other != key && old(self).verse_lists().contains_key(other)
                                    ==> final(self).verse_lists()[other] == old(
                                    self,
                                ).verse_lists()[other]
                        },
                        None => {
                            &&& r == Err::<Vec<Verse>, DataError>(DataError::Unreadable)
                            &&& final(self).verse_lists() == old(self).verse_lists()
                        },
                    }
                }
            }),
    {
        let key = make_chapter_key(translation_id, book_id, chapter);
        match self.verses.get(key.as_str()) {
            Some(list) => {
                return Ok(copy_verses(list));
            },
            None => {},
        }
        if !(same_text(translation_id, "kjv") || same_text(translation_id, "tamil") || same_text(
            translation_id,
            "niv",
        ) || same_text(translation_id, "nkjv")) {
            return Err(DataError::TranslationNotFound);
        }
        match bundled {
            Some(all) => {
                let picked = verses_of_chapter(&all, book_id, chapter);
                let list = copy_verses(&picked);
                self.verses.insert(key, picked);
                Ok(list)
            },
            None => Err(DataError::Unreadable),
        }
    }

    /// The translations that were loaded.
    pub fn get_translations(&self) -> (r: &Vec<Translation>)
        ensures
            r@ == self.translation_list(),
    {
        &self.translations
    }

    /// The books that were loaded for a translation.
    pub fn get_books(&self, translation_id: &str) -> (r: Option<&Vec<Book>>)
        ensures
            match r {
                Some(books) => self.book_lists().contains_key(translation_id@)
                    && self.book_lists()[translation_id@] == *books,
                None => !self.book_lists().contains_key(translation_id@),
            },
    {
        self.books.get(translation_id)
    }

    /// A search over a translation. Nothing is searched yet: the result is
    /// empty and names the query and the translation.
    pub fn search_verses(&self, translation_id: &str, query: &str) -> (r: SearchResult)
        ensures
            r.verses@.len() == 0,
            r.total_count == 0,
            r.query@ == query@,
            r.translation_id@ == translation_id@,
    {
        SearchResult {
            verses: Vec::new(),
            total_count: 0,
            query: query.to_owned(),
            translation_id: translation_id.to_owned(),
        }
    }

    /// Adds a bookmark after the others.
    pub fn add_bookmark(&mut self, bookmark: Bookmark)
        ensures
            final(self).bookmark_list() == old(self).bookmark_list().push(bookmark),
            final(self).translation_list() == old(self).translation_list(),
            final(self).book_lists() == old(self).book_lists(),
            final(self).verse_lists() == old(self).verse_lists(),
            final(self).highlight_list() == old(self).highlight_list(),
    {
        self.bookmarks.push(bookmark);
    }

    /// Removes every bookmark known by `bookmark_id`; the others keep their
    /// order.
    pub fn remove_bookmark(&mut self, bookmark_id: &str)
        ensures
            final(self).bookmark_list() == old(self).bookmark_list().filter(
                other_than::<Bookmark>(bookmark_id@),
            ),
            final(self).translation_list() == old(self).translation_list(),
            final(self).book_lists() == old(self).book_lists(),
            final(self).verse_lists() == old(self).verse_lists(),
            final(self).highlight_list() == old(self).highlight_list(),
    {
        remove_with_id(&mut self.bookmarks, bookmark_id);
    }

    /// The bookmarks, oldest first.
    pub fn get_bookmarks(&self) -> (r: &Vec<Bookmark>)
        ensures
            r@ == self.bookmark_list(),
    {
        &self.bookmarks
    }

    /// Adds a highlight after the others.
    pub fn add_highlight(&mut self, highlight: TextHighlight)
        ensures
            final(self).highlight_list() == old(self).highlight_list().push(highlight),
            final(self).translation_list() == old(self).translation_list(),
            final(self).book_lists() == old(self).book_lists(),
            final(self).verse_lists() == old(self).verse_lists(),
            final(self).bookmark_list() == old(self).bookmark_list(),
    {
        self.highlights.push(highlight);
    }

    /// Removes every highlight known by `highlight_id`; the others keep their
    /// order.
    pub fn remove_highlight(&mut self, highlight_id: &str)
        ensures
            final(self).highlight_list() == old(self).highlight_list().filter(
                other_than::<TextHighlight>(highlight_id@),
            ),
            final(self).translation_list() == old(self).translation_list(),
            final(self).book_lists() == old(self).book_lists(),
            final(self).verse_lists() == old(self).verse_lists(),
            final(self).bookmark_list() == old(self).bookmark_list(),
    {
        remove_with_id(&mut self.highlights, highlight_id);
    }

    /// The highlights of one verse, oldest first.
    pub fn get_verse_highlights(
        &self,
        translation_id: &str,
        book_id: u32,
        chapter: u32,
        verse: u32,
    ) -> (r: Vec<&TextHighlight>)
        ensures
            r@.map_values(|h: &TextHighlight| *h) == self.highlight_list().filter(
                on_verse(translation_id@, book_id, chapter, verse),
            ),
    {
        let wanted = translation_id.to_owned();
        let ghost pick = on_verse(translation_id@, book_id, chapter, verse);
        let mut r: Vec<&TextHighlight> = Vec::new();
        let mut i: usize = 0;
        proof {
            assert(r@.map_values(|h: &TextHighlight| *h) =~= Seq::<TextHighlight>::empty());
            assert(self.highlights@.take(0) =~= Seq::<TextHighlight>::empty());
            assert(Seq::<TextHighlight>::empty().filter(pick) =~= Seq::<TextHighlight>::empty())
                by {
                reveal(Seq::filter);
            }
        }
        while i < self.highlights.len()
            invariant
                i <= self.highlights.len(),
                wanted@ == translation_id@,
                pick == on_verse(translation_id@, book_id, chapter, verse),
                r@.map_values(|h: &TextHighlight| *h) == self.highlights@.take(i as int).filter(
                    pick,
                ),
            decreases self.highlights.len() - i,
        {
            let h = &self.highlights[i];
            let ghost before = r@;
            proof {
                assert(self.highlights@.take(i + 1) == self.highlights@.take(i as int).push(*h));
                self.highlights@.take(i as int).lemma_filter_push(*h, pick);
            }
            if h.translation_id == wanted && h.book_id == book_id && h.chapter == chapter
                && h.verse == verse {
                r.push(h);
                assert(r@.map_values(|h: &TextHighlight| *h) =~= before.map_values(
                    |h: &TextHighlight| *h,
                ).push(*h));
            }
            i += 1;
        }
        assert(self.highlights@.take(i as int) == self.highlights@);
        r
    }
}

} // verus!
