//! The data that the reader works with: translations, books, verses and the
//! marks a reader leaves on them.
//!
//! Each type with text in it has a view in which every string is a
//! `Seq<char>`; contracts speak of these views.

use vstd::prelude::*;

verus! {

/// Old or New Testament.
#[derive(Debug, Clone, Copy, PartialEq, Eq, Structural)]
pub enum Testament {
    OT,
    NT,
}

/// How the verses of a chapter are laid out.
#[derive(Debug, Clone, Copy, PartialEq, Eq, Structural)]
pub enum VerseDisplayMode {
    VerseByVerse,
    Paragraph,
    Parallel,
}

/// Where a translation stands: part of the program, downloaded, to be had,
/// or failed.
#[derive(Debug, Clone, Copy, PartialEq, Eq, Structural)]
pub enum TranslationStatus {
    Core,
    Downloaded,
    Available,
    Error,
}

/// The colours of highlights.
#[derive(Debug, Clone, Copy, PartialEq, Eq, Structural)]
pub enum HighlightColor {
    Yellow,
    Green,
    Blue,
    Pink,
    Purple,
}

/// The view of an optional string.
pub open spec fn opt_text(s: Option<String>) -> Option<Seq<char>> {
    match s {
        Some(t) => Some(t@),
        None => None,
    }
}

/// A copy of an optional string.
pub fn copy_opt_text(s: &Option<String>) -> (r: Option<String>)
    ensures
        opt_text(r) == opt_text(*s),
{
    match s {
        Some(t) => Some(t.clone()),
        None => None,
    }
}

// ---------------------------------------------------------------------------
// Translation
// ---------------------------------------------------------------------------

/// A named edition of the text, identified by `id`.
#[derive(Debug, PartialEq)]
pub struct Translation {
    pub id: String,
    pub name: String,
    pub abbreviation: String,
    pub language: String,
    pub language_name: Option<String>,
    pub description: String,
    pub bundled: bool,
    pub priority: u32,
}

/// A translation with its strings as texts.
pub ghost struct TranslationView {
    pub id: Seq<char>,
    pub name: Seq<char>,
    pub abbreviation: Seq<char>,
    pub language: Seq<char>,
    pub language_name: Option<Seq<char>>,
    pub description: Seq<char>,
    pub bundled: bool,
    pub priority: u32,
}

impl View for Translation {
    type V = TranslationView;

    open spec fn view(&self) -> TranslationView {
        TranslationView {
            id: self.id@,
            name: self.name@,
            abbreviation: self.abbreviation@,
            language: self.language@,
            language_name: opt_text(self.language_name),
            description: self.description@,
            bundled: self.bundled,
            priority: self.priority,
        }
    }
}

impl Clone for Translation {
    fn clone(&self) -> (r: Self)
        ensures
            r@ == self@,
    {
        Translation {
            id: self.id.clone(),
            name: self.name.clone(),
            abbreviation: self.abbreviation.clone(),
            language: self.language.clone(),
            language_name: copy_opt_text(&self.language_name),
            description: self.description.clone(),
            bundled: self.bundled,
            priority: self.priority,
        }
    }
}

/// The views of a list of translations.
pub open spec fn translation_views(s: Seq<Translation>) -> Seq<TranslationView> {
    s.map_values(|t: Translation| t@)
}

/// The views of a list that grew by one item.
pub proof fn lemma_translation_views_push(s: Seq<Translation>, item: Translation)
    ensures
        translation_views(s.push(item)) == translation_views(s).push(item@),
{
    assert(translation_views(s.push(item)) =~= translation_views(s).push(item@));
}

/// A copy of a list of translations.
pub fn copy_translations(list: &Vec<Translation>) -> (r: Vec<Translation>)
    ensures
        translation_views(r@) == translation_views(list@),
{
    let mut r: Vec<Translation> = Vec::new();
    let mut i: usize = 0;
    while i < list.len()
        invariant
            i <= list.len(),
            translation_views(r@) == translation_views(list@.take(i as int)),
        decreases list.len() - i,
    {
        let item = list[i].clone();
        proof {
            lemma_translation_views_push(r@, item);
            lemma_translation_views_push(list@.take(i as int), list@[i as int]);
            assert(list@.take(i + 1) == list@.take(i as int).push(list@[i as int]));
        }
        r.push(item);
        i += 1;
    }
    assert(list@.take(list.len() as int) == list@);
    r
}

// ---------------------------------------------------------------------------
// Book
// ---------------------------------------------------------------------------

/// One of the canonical books. `abbreviation` is also the code by which a
/// document refers to the book.
#[derive(Debug, PartialEq)]
pub struct Book {
    pub id: u32,
    pub name: String,
    pub abbreviation: String,
    pub testament: Testament,
    pub order_index: u32,
    pub chapter_count: u32,
}

/// A book with its strings as texts.
pub ghost struct BookView {
    pub id: u32,
    pub name: Seq<char>,
    pub abbreviation: Seq<char>,
    pub testament: Testament,
    pub order_index: u32,
    pub chapter_count: u32,
}

impl View for Book {
    type V = BookView;

    open spec fn view(&self) -> BookView {
        BookView {
            id: self.id,
            name: self.name@,
            abbreviation: self.abbreviation@,
            testament: self.testament,
            order_index: self.order_index,
            chapter_count: self.chapter_count,
        }
    }
}

impl Clone for Book {
    fn clone(&self) -> (r: Self)
        ensures
            r@ == self@,
    {
        Book {
            id: self.id,
            name: self.name.clone(),
            abbreviation: self.abbreviation.clone(),
            testament: self.testament,
            order_index: self.order_index,
            chapter_count: self.chapter_count,
        }
    }
}

/// The views of a list of books.
pub open spec fn book_views(s: Seq<Book>) -> Seq<BookView> {
    s.map_values(|b: Book| b@)
}

/// The views of a list that grew by one item.
pub proof fn lemma_book_views_push(s: Seq<Book>, item: Book)
    ensures
        book_views(s.push(item)) == book_views(s).push(item@),
{
    assert(book_views(s.push(item)) =~= book_views(s).push(item@));
}

/// A copy of a list of books.
pub fn copy_books(list: &Vec<Book>) -> (r: Vec<Book>)
    ensures
        book_views(r@) == book_views(list@),
{
    let mut r: Vec<Book> = Vec::new();
    let mut i: usize = 0;
    while i < list.len()
        invariant
            i <= list.len(),
            book_views(r@) == book_views(list@.take(i as int)),
        decreases list.len() - i,
    {
        let item = list[i].clone();
        proof {
            lemma_book_views_push(r@, item);
            lemma_book_views_push(list@.take(i as int), list@[i as int]);
            assert(list@.take(i + 1) == list@.take(i as int).push(list@[i as int]));
        }
        r.push(item);
        i += 1;
    }
    assert(list@.take(list.len() as int) == list@);
    r
}

// ---------------------------------------------------------------------------
// Verse
// ---------------------------------------------------------------------------

/// The smallest addressable unit of text: one verse of one chapter of one
/// book in one translation.
#[derive(Debug, PartialEq)]
pub struct Verse {
    pub id: String,
    pub translation_id: String,
    pub book_id: u32,
    pub chapter: u32,
    pub verse: u32,
    pub text: String,
}

/// A verse with its strings as texts.
pub ghost struct VerseView {
    pub id: Seq<char>,
    pub translation_id: Seq<char>,
    pub book_id: u32,
    pub chapter: u32,
    pub verse: u32,
    pub text: Seq<char>,
}

impl View for Verse {
    type V = VerseView;

    open spec fn view(&self) -> VerseView {
        VerseView {
            id: self.id@,
            translation_id: self.translation_id@,
            book_id: self.book_id,
            chapter: self.chapter,
            verse: self.verse,
            text: self.text@,
        }
    }
}

impl Clone for Verse {
    fn clone(&self) -> (r: Self)
        ensures
            r@ == self@,
    {
        Verse {
            id: self.id.clone(),
            translation_id: self.translation_id.clone(),
            book_id: self.book_id,
            chapter: self.chapter,
            verse: self.verse,
            text: self.text.clone(),
        }
    }
}

/// The views of a list of verses.
pub open spec fn verse_views(s: Seq<Verse>) -> Seq<VerseView> {
    s.map_values(|v: Verse| v@)
}

/// The views of a list that grew by one item.
pub proof fn lemma_verse_views_push(s: Seq<Verse>, item: Verse)
    ensures
        verse_views(s.push(item)) == verse_views(s).push(item@),
{
    assert(verse_views(s.push(item)) =~= verse_views(s).push(item@));
}

/// A copy of a list of verses.
pub fn copy_verses(list: &Vec<Verse>) -> (r: Vec<Verse>)
    ensures
        verse_views(r@) == verse_views(list@),
{
    let mut r: Vec<Verse> = Vec::new();
    let mut i: usize = 0;
    while i < list.len()
        invariant
            i <= list.len(),
            verse_views(r@) == verse_views(list@.take(i as int)),
        decreases list.len() - i,
    {
        let item = list[i].clone();
        proof {
            lemma_verse_views_push(r@, item);
            lemma_verse_views_push(list@.take(i as int), list@[i as int]);
            assert(list@.take(i + 1) == list@.take(i as int).push(list@[i as int]));
        }
        r.push(item);
        i += 1;
    }
    assert(list@.take(list.len() as int) == list@);
    r
}

/// A verse together with the name and code of its book.
#[derive(Debug, Clone, PartialEq)]
pub struct VerseWithBook {
    pub verse: Verse,
    pub book_name: String,
    pub book_abbreviation: String,
}

/// A place in the text: a chapter of a book, or one verse of it.
#[derive(Debug, Clone, PartialEq)]
pub struct BibleReference {
    pub book_id: u32,
    pub chapter: u32,
    pub verse: Option<u32>,
}

/// What a search hands back.
#[derive(Debug, Clone, PartialEq)]
pub struct SearchResult {
    pub verses: Vec<VerseWithBook>,
    pub total_count: usize,
    pub query: String,
    pub translation_id: String,
}

/// The verses of one chapter that a reader has finished.
#[derive(Debug, Clone, PartialEq)]
pub struct ReadingProgress {
    pub translation_id: String,
    pub book_id: u32,
    pub chapter: u32,
    pub completed_verses: Vec<u32>,
    pub last_read_at: String,
}

// ---------------------------------------------------------------------------
// Bookmarks and highlights
// ---------------------------------------------------------------------------

/// A reader's mark on one verse.
#[derive(Debug, Clone, PartialEq)]
pub struct Bookmark {
    pub id: String,
    pub user_id: Option<String>,
    pub translation_id: String,
    pub book_id: u32,
    pub chapter: u32,
    pub verse: u32,
    pub note: Option<String>,
    pub created_at: String,
    pub updated_at: Option<String>,
}

/// A stretch of a verse's text that a reader has coloured.
#[derive(Debug, Clone, PartialEq)]
pub struct TextHighlight {
    pub id: String,
    pub user_id: Option<String>,
    pub translation_id: String,
    pub book_id: u32,
    pub chapter: u32,
    pub verse: u32,
    pub text: String,
    pub color: HighlightColor,
    pub start_index: usize,
    pub end_index: usize,
    pub created_at: String,
}

/// How one highlight colour is shown.
#[derive(Debug, Clone, PartialEq)]
pub struct HighlightColorOption {
    pub name: HighlightColor,
    pub label: String,
    pub bg: String,
    pub border: String,
    pub hover: String,
}

} // verus!
