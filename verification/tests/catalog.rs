use study_bible::catalog::{osis_book_map, standard_books, BOOK_CODES, BOOK_COUNT};
use study_bible::osis::parse_osis;
use study_bible::types::Testament;

#[test]
fn the_catalog_has_66_books_in_canonical_order() {
    let books = standard_books();
    assert_eq!(books.len(), 66);
    assert_eq!(BOOK_COUNT, 66);
    for (i, book) in books.iter().enumerate() {
        assert_eq!(book.id as usize, i + 1);
        assert_eq!(book.order_index as usize, i + 1);
        assert_eq!(book.abbreviation, BOOK_CODES[i]);
        let testament = if i < 39 { Testament::OT } else { Testament::NT };
        assert_eq!(book.testament, testament);
    }
    assert_eq!(books[0].name, "Genesis");
    assert_eq!(books[0].abbreviation, "Gen");
    assert_eq!(books[0].chapter_count, 50);
    assert_eq!(books[18].name, "Psalms");
    assert_eq!(books[18].chapter_count, 150);
    assert_eq!(books[38].name, "Malachi");
    assert_eq!(books[39].name, "Matthew");
    assert_eq!(books[39].abbreviation, "Matt");
    assert_eq!(books[65].name, "Revelation");
    assert_eq!(books[65].abbreviation, "Rev");
    assert_eq!(books[65].chapter_count, 22);
    assert_eq!(books.iter().map(|b| b.chapter_count).sum::<u32>(), 1189);
}

#[test]
fn the_catalog_is_the_same_every_time() {
    assert_eq!(standard_books(), standard_books());
}

#[test]
fn book_codes_resolve_to_book_ids() {
    let map = osis_book_map();
    let chars = |s: &str| s.chars().collect::<Vec<char>>();
    assert_eq!(map.get(&chars("Gen")), Some(1));
    assert_eq!(map.get(&chars("Ps")), Some(19));
    assert_eq!(map.get(&chars("1John")), Some(62));
    assert_eq!(map.get(&chars("Rev")), Some(66));
    assert_eq!(map.get(&chars("gen")), None);
    assert_eq!(map.get(&chars("Genesis")), None);
    assert_eq!(map.get(&chars("")), None);
    assert_eq!(map.position(&chars("Exod")), Some(1));
    assert_eq!(map.position(&chars("Nope")), None);
    for (i, code) in BOOK_CODES.iter().enumerate() {
        assert_eq!(map.get(&chars(code)), Some(i as u32 + 1));
    }
}

#[test]
fn parse_osis_reads_book_chapter_and_verse() {
    let r = parse_osis("Gen.1.1").unwrap();
    assert_eq!((r.book.as_str(), r.chapter, r.verse), ("Gen", 1, 1));
    let r = parse_osis("1John.5.21").unwrap();
    assert_eq!((r.book.as_str(), r.chapter, r.verse), ("1John", 5, 21));
    let r = parse_osis(".+7.007").unwrap();
    assert_eq!((r.book.as_str(), r.chapter, r.verse), ("", 7, 7));
    let r = parse_osis("Gen.4294967295.0").unwrap();
    assert_eq!((r.chapter, r.verse), (4294967295, 0));
}

#[test]
fn parse_osis_rejects_what_is_no_reference() {
    for text in [
        "", "Gen", "Gen.1", "Gen.1.", "Gen..1", "Gen.a.1", "Gen.1.b", "Gen.-1.1", "Gen.1.1a",
        "Gen. 1.1", "Gen.1.4294967296", "Gen.99999999999999999999.1", "Gen.+.1", "Gen.1 .1",
    ] {
        assert!(parse_osis(text).is_none(), "{:?}", text);
    }
}

#[test]
fn parse_osis_rejects_more_than_three_parts() {
    for text in ["Gen.1.1.5", "Ps.119.176.extra", "Gen.1.1.", "Gen.1.1..", ".1.1.", "Gen.1.1.1.1"] {
        assert!(parse_osis(text).is_none(), "{:?}", text);
    }
    assert!(parse_osis("Gen.1.15").is_some());
}
