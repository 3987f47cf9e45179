//! The reference catalog: the 66 canonical books in canonical order.
//!
//! A book's abbreviation is the code under which documents refer to it, so the
//! catalog is also the table that joins a document's references to book ids.

use crate::text::{chars_of, same_chars};
use crate::types::{book_views, lemma_book_views_push, Book, BookView, Testament};
use vstd::prelude::*;

verus! {

/// How many books the catalog holds.
pub const BOOK_COUNT: usize = 66;

/// How many of them, counted from the first, belong to the Old Testament.
pub const OLD_TESTAMENT_BOOKS: usize = 39;

/// The names of the books, in canonical order.
pub const BOOK_NAMES: [&'static str; 66] = [
    "Genesis",
    "Exodus",
    "Leviticus",
    "Numbers",
    "Deuteronomy",
    "Joshua",
    "Judges",
    "Ruth",
    "1 Samuel",
    "2 Samuel",
    "1 Kings",
    "2 Kings",
    "1 Chronicles",
    "2 Chronicles",
    "Ezra",
    "Nehemiah",
    "Esther",
    "Job",
    "Psalms",
    "Proverbs",
    "Ecclesiastes",
    "Song of Solomon",
    "Isaiah",
    "Jeremiah",
    "Lamentations",
    "Ezekiel",
    "Daniel",
    "Hosea",
    "Joel",
    "Amos",
    "Obadiah",
    "Jonah",
    "Micah",
    "Nahum",
    "Habakkuk",
    "Zephaniah",
    "Haggai",
    "Zechariah",
    "Malachi",
    "Matthew",
    "Mark",
    "Luke",
    "John",
    "Acts",
    "Romans",
    "1 Corinthians",
    "2 Corinthians",
    "Galatians",
    "Ephesians",
    "Philippians",
    "Colossians",
    "1 Thessalonians",
    "2 Thessalonians",
    "1 Timothy",
    "2 Timothy",
    "Titus",
    "Philemon",
    "Hebrews",
    "James",
    "1 Peter",
    "2 Peter",
    "1 John",
    "2 John",
    "3 John",
    "Jude",
    "Revelation",
];

/// The codes of the books, in canonical order.
pub const BOOK_CODES: [&'static str; 66] = [
    "Gen",
    "Exod",
    "Lev",
    "Num",
    "Deut",
    "Josh",
    "Judg",
    "Ruth",
    "1Sam",
    "2Sam",
    "1Kgs",
    "2Kgs",
    "1Chr",
    "2Chr",
    "Ezra",
    "Neh",
    "Esth",
    "Job",
    "Ps",
    "Prov",
    "Eccl",
    "Song",
    "Isa",
    "Jer",
    "Lam",
    "Ezek",
    "Dan",
    "Hos",
    "Joel",
    "Amos",
    "Obad",
    "Jonah",
    "Mic",
    "Nah",
    "Hab",
    "Zeph",
    "Hag",
    "Zech",
    "Mal",
    "Matt",
    "Mark",
    "Luke",
    "John",
    "Acts",
    "Rom",
    "1Cor",
    "2Cor",
    "Gal",
    "Eph",
    "Phil",
    "Col",
    "1Thess",
    "2Thess",
    "1Tim",
    "2Tim",
    "Titus",
    "Phlm",
    "Heb",
    "Jas",
    "1Pet",
    "2Pet",
    "1John",
    "2John",
    "3John",
    "Jude",
    "Rev",
];

/// The canonical number of chapters of each book, in canonical order.
pub const BOOK_CHAPTERS: [u32; 66] = [
    50, 40, 27, 36, 34, 24, 21, 4, 31, 24, 22, 25, 29, 36, 10, 13, 10, 42, 150, 31, 12, 8, 66, 52,
    5, 48, 12, 14, 3, 9, 1, 4, 7, 3, 3, 3, 2, 14, 4, 28, 16, 24, 21, 28, 16, 16, 13, 6, 6, 4, 4, 5,
    3, 6, 4, 3, 1, 13, 5, 5, 3, 5, 1, 1, 1, 22,
];

/// The testament of the book at position `i` of the catalog.
pub open spec fn testament_at(i: int) -> Testament {
    if i < OLD_TESTAMENT_BOOKS {
        Testament::OT
    } else {
        Testament::NT
    }
}

/// The book at position `i` of the catalog, `0 <= i < 66`. Ids and order
/// indices count from 1.
pub open spec fn catalog_book(i: int) -> BookView {
    BookView {
        id: (i + 1) as u32,
        name: BOOK_NAMES[i]@,
        abbreviation: BOOK_CODES[i]@,
        testament: testament_at(i),
        order_index: (i + 1) as u32,
        chapter_count: BOOK_CHAPTERS[i],
    }
}

/// The catalog: 66 books in canonical order.
pub open spec fn catalog() -> Seq<BookView> {
    Seq::new(BOOK_COUNT as nat, |i: int| catalog_book(i))
}

/// A book of the catalog, whatever its number of chapters: its order index
/// is one of the catalog, and its id, name, abbreviation and testament are
/// those that the catalog has at that order index.
pub open spec fn is_catalog_book(book: BookView) -> bool {
    &&& 1 <= book.order_index <= BOOK_COUNT
    &&& book.id == catalog_book(book.order_index - 1).id
    &&& book.name == catalog_book(book.order_index - 1).name
    &&& book.abbreviation == catalog_book(book.order_index - 1).abbreviation
    &&& book.testament == catalog_book(book.order_index - 1).testament
}

/// A list of books of the catalog in canonical order: every book is one of
/// the catalog, and the order indices rise from each book to the next.
pub open spec fn follows_catalog(books: Seq<BookView>) -> bool {
    &&& forall|k: int| 0 <= k < books.len() ==> is_catalog_book(#[trigger] books[k])
    &&& forall|a: int, b: int|
        0 <= a < b < books.len() ==> (#[trigger] books[a]).order_index
            < (#[trigger] books[b]).order_index
}

/// The catalog is a list of books of the catalog in canonical order.
pub proof fn lemma_catalog_follows_catalog()
    ensures
        follows_catalog(catalog()),
{
}

/// The catalog as a list of books: always the same 66 entries, in canonical
/// order.
pub fn standard_books() -> (books: Vec<Book>)
    ensures
        book_views(books@) == catalog(),
{
    let mut books: Vec<Book> = Vec::new();
    let mut i: usize = 0;
    while i < BOOK_COUNT
        invariant
            i <= BOOK_COUNT,
            book_views(books@) == catalog().take(i as int),
        decreases BOOK_COUNT - i,
    {
        let testament = if i < OLD_TESTAMENT_BOOKS {
            Testament::OT
        } else {
            Testament::NT
        };
        let book = Book {
            id: (i + 1) as u32,
            name: BOOK_NAMES[i].to_owned(),
            abbreviation: BOOK_CODES[i].to_owned(),
            testament,
            order_index: (i + 1) as u32,
            chapter_count: BOOK_CHAPTERS[i],
        };
        proof {
            lemma_book_views_push(books@, book);
            assert(book@ == catalog_book(i as int));
            assert(catalog().take(i + 1) == catalog().take(i as int).push(catalog_book(i as int)));
        }
        books.push(book);
        i += 1;
    }
    assert(catalog().take(BOOK_COUNT as int) == catalog());
    books
}

/// The position in the catalog of the book that goes by `code`: the last
/// position below `limit` whose code is `code`, if there is one.
pub open spec fn position_below(code: Seq<char>, limit: int) -> Option<int>
    decreases limit,
{
    if limit <= 0 {
        None
    } else if BOOK_CODES[limit - 1]@ == code {
        Some(limit - 1)
    } else {
        position_below(code, limit - 1)
    }
}

/// The position in the catalog of the book that goes by `code`.
pub open spec fn code_position(code: Seq<char>) -> Option<int> {
    position_below(code, BOOK_COUNT as int)
}

/// The id of the book that goes by `code`, if the catalog has such a book.
pub open spec fn code_book_id(code: Seq<char>) -> Option<u32> {
    match code_position(code) {
        Some(i) => Some((i + 1) as u32),
        None => None,
    }
}

/// What `position_below` finds is a position of the catalog with that code;
/// where it finds nothing, no position below the limit has the code.
pub proof fn lemma_position_below(code: Seq<char>, limit: int)
    requires
        0 <= limit <= BOOK_COUNT,
    ensures
        match position_below(code, limit) {
            Some(i) => 0 <= i < limit && BOOK_CODES[i]@ == code,
            None => forall|j: int| 0 <= j < limit ==> (#[trigger] BOOK_CODES[j])@ != code,
        },
    decreases limit,
{
    if limit > 0 && BOOK_CODES[limit - 1]@ != code {
        lemma_position_below(code, limit - 1);
    }
}

/// The join of book codes to book ids that the catalog gives: each code of
/// the catalog with the id of the book that goes by it, and no other code.
pub open spec fn catalog_ids() -> Map<Seq<char>, u32> {
    Map::new(
        |code: Seq<char>| code_book_id(code) is Some,
        |code: Seq<char>| code_book_id(code).unwrap(),
    )
}

/// The position of the last of the first `limit` codes of a table that is
/// `code`, if one of them is.
spec fn table_position(codes: Seq<Vec<char>>, code: Seq<char>, limit: int) -> Option<int>
    decreases limit,
{
    if limit <= 0 {
        None
    } else if codes[limit - 1]@ == code {
        Some(limit - 1)
    } else {
        table_position(codes, code, limit - 1)
    }
}

/// In a table that holds the codes of the catalog in canonical order, a code
/// stands where it stands in the catalog.
proof fn lemma_table_position(codes: Seq<Vec<char>>, code: Seq<char>, limit: int)
    requires
        0 <= limit <= codes.len() == BOOK_COUNT,
        forall|i: int| 0 <= i < BOOK_COUNT ==> (#[trigger] codes[i])@ == BOOK_CODES[i]@,
    ensures
        table_position(codes, code, limit) == position_below(code, limit),
    decreases limit,
{
    if limit > 0 {
        assert(codes[limit - 1]@ == BOOK_CODES[limit - 1]@);
        lemma_table_position(codes, code, limit - 1);
    }
}

/// The table that joins book codes to book ids: the codes of the catalog, in
/// canonical order.
pub struct BookCodeMap {
    codes: Vec<Vec<char>>,
}

impl BookCodeMap {
    /// The table holds exactly the codes of the catalog.
    #[verifier::type_invariant]
    spec fn holds_catalog(&self) -> bool {
        &&& self.codes@.len() == BOOK_COUNT
        &&& forall|i: int| 0 <= i < BOOK_COUNT ==> (#[trigger] self.codes@[i])@ == BOOK_CODES[i]@
    }

    /// The table as a map from a book code to a book id: each code that the
    /// table holds, with the position of its last entry, counted from 1.
    pub closed spec fn view(&self) -> Map<Seq<char>, u32> {
        Map::new(
            |code: Seq<char>| table_position(self.codes@, code, self.codes@.len() as int) is Some,
            |code: Seq<char>|
                (table_position(self.codes@, code, self.codes@.len() as int).unwrap() + 1) as u32,
        )
    }

    /// The id of the book that goes by `code`.
    pub fn get(&self, code: &Vec<char>) -> (id: Option<u32>)
        ensures
            id == code_book_id(code@),
    {
        proof {
            use_type_invariant(self);
        }
        let mut i: usize = BOOK_COUNT;
        while i > 0
            invariant
                i <= BOOK_COUNT,
                self.holds_catalog(),
                code_position(code@) == position_below(code@, i as int),
            decreases i,
        {
            if same_chars(&self.codes[i - 1], code) {
                return Some(i as u32);
            }
            i -= 1;
        }
        None
    }

    /// The position in the catalog of the book that goes by `code`.
    pub fn position(&self, code: &Vec<char>) -> (r: Option<usize>)
        ensures
            match r {
                Some(i) => code_position(code@) == Some(i as int) && i < BOOK_COUNT,
                None => code_position(code@).is_none(),
            },
    {
        match self.get(code) {
            Some(id) => {
                proof {
                    lemma_position_below(code@, BOOK_COUNT as int);
                }
                Some((id - 1) as usize)
            },
            None => None,
        }
    }
}

/// Builds the table that joins book codes to book ids: it takes each code of
/// the catalog to the id of the book that goes by it, and knows no other
/// code.
pub fn osis_book_map() -> (map: BookCodeMap)
    ensures
        map@ == catalog_ids(),
{
    let mut codes: Vec<Vec<char>> = Vec::new();
    let mut i: usize = 0;
    while i < BOOK_COUNT
        invariant
            i <= BOOK_COUNT,
            codes@.len() == i,
            forall|j: int| 0 <= j < i ==> (#[trigger] codes@[j])@ == BOOK_CODES[j]@,
        decreases BOOK_COUNT - i,
    {
        codes.push(chars_of(BOOK_CODES[i]));
        i += 1;
    }
    let map = BookCodeMap { codes };
    proof {
        assert forall|code: Seq<char>|
            table_position(map.codes@, code, BOOK_COUNT as int) == #[trigger] code_position(
                code,
            ) by {
            lemma_table_position(map.codes@, code, BOOK_COUNT as int);
        }
        assert(map@ =~= catalog_ids());
    }
    map
}

} // verus!
