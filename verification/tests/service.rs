use study_bible::chain::{nested_step, resolution_step, DecodeStep, IndexSource, Resolution};
use study_bible::index::{translations_from_index, IndexDocument, IndexLanguage, IndexTranslation};
use study_bible::markup::ParseError;
use study_bible::service::{
    document_file_name, BibleService, DownloadStep, ServiceError, DOCUMENT_DIRECTORY,
};
use study_bible::catalog::standard_books;
use study_bible::types::{Book, Testament, Verse};

fn genesis_one() -> Vec<u8> {
    let mut document = String::from("<osis><div type=\"book\" osisID=\"Gen\"><chapter osisID=\"Gen.1\">");
    for n in 1..=31 {
        document.push_str(&format!("<verse osisID=\"Gen.1.{}\">Verse number {} of the Chapter</verse>\n", n, n));
    }
    document.push_str("</chapter><chapter osisID=\"Gen.2\"><verse osisID=\"Gen.2.1\">Thus the heavens</verse>");
    document.push_str("<verse osisID=\"Gen.4.1\">And Adam knew</verse></chapter></div>");
    document.push_str("<verse osisID=\"Exod.1.1\">These are the NAMES</verse>");
    document.push_str("<verse osisID=\"Exod.2.1\">a man of the house of Levi</verse></osis>");
    document.into_bytes()
}

fn index_with(entries: &[(&str, Option<&str>)]) -> IndexDocument {
    IndexDocument {
        languages: vec![IndexLanguage {
            language: "English".to_string(),
            native_name: None,
            iso_code: Some("en".to_string()),
            translations: entries
                .iter()
                .map(|(id, url)| IndexTranslation {
                    id: id.to_string(),
                    name: format!("Translation {}", id),
                    download_url: url.map(|u| u.to_string()),
                    metadata: None,
                })
                .collect(),
        }],
    }
}

#[test]
fn books_before_any_download_are_the_catalog() {
    let mut service = BibleService::new();
    let books = service.load_books("kjv", None);
    assert_eq!(books, standard_books());
    assert_eq!(books.len(), 66);
    assert_eq!(service.load_books("anything", None), standard_books());
}

#[test]
fn books_after_download_are_those_of_the_document() {
    let document = genesis_one();
    let mut service = BibleService::new();
    assert_eq!(service.load_books("kjv", None).len(), 66);
    let books = service.load_books("kjv", Some(&document));
    assert_eq!(
        books,
        vec![
            Book {
                id: 1,
                name: "Genesis".to_string(),
                abbreviation: "Gen".to_string(),
                testament: Testament::OT,
                order_index: 1,
                chapter_count: 4,
            },
            Book {
                id: 2,
                name: "Exodus".to_string(),
                abbreviation: "Exod".to_string(),
                testament: Testament::OT,
                order_index: 2,
                chapter_count: 2,
            },
        ]
    );
    // What was parsed is kept: the document is not looked at again.
    assert_eq!(service.load_books("kjv", None), books);
    assert_eq!(service.load_books("kjv", Some(b"<broken")), books);
    assert_eq!(service.load_books("web", None).len(), 66);
}

#[test]
fn books_fall_back_to_the_catalog() {
    let mut service = BibleService::new();
    assert_eq!(service.load_books("kjv", Some(b"<a></b>")), standard_books());
    assert_eq!(service.load_books("kjv", Some(b"<osis><verse osisID=\"Nope.1.1\"/></osis>")), standard_books());
    // Neither was kept.
    assert_eq!(service.load_books("kjv", Some(&genesis_one())).len(), 2);
}

#[test]
fn load_books_with_takes_the_outcome_of_parsing() {
    let one = || vec![standard_books().remove(42)];
    let mut service = BibleService::new();
    assert_eq!(service.load_books_with("a", None), standard_books());
    assert_eq!(service.load_books_with("a", Some(Ok(vec![]))), standard_books());
    let error = ParseError { position: 1, reason: "r".to_string() };
    assert_eq!(service.load_books_with("a", Some(Err(error))), standard_books());
    assert_eq!(service.load_books_with("a", Some(Ok(one()))), one());
    assert_eq!(service.load_books_with("a", None), one());
    assert_eq!(service.load_books_with("b", None), standard_books());
}

#[test]
fn verses_need_the_document() {
    let mut service = BibleService::new();
    assert_eq!(service.load_verses("kjv", 1, 1, None), Err(ServiceError::NotDownloaded));
    let document = genesis_one();
    let verses = service.load_verses("kjv", 1, 1, Some(&document)).unwrap();
    assert_eq!(verses.len(), 31);
    for (i, verse) in verses.iter().enumerate() {
        let n = i as u32 + 1;
        assert_eq!(
            verse,
            &Verse {
                id: format!("kjv:1:1:{}", n),
                translation_id: "kjv".to_string(),
                book_id: 1,
                chapter: 1,
                verse: n,
                text: format!("Verse number {} of the Chapter", n),
            }
        );
    }
    // What was parsed is kept.
    assert_eq!(service.load_verses("kjv", 1, 1, None), Ok(verses));
    assert_eq!(service.load_verses("kjv", 1, 2, None), Err(ServiceError::NotDownloaded));
    assert_eq!(service.load_verses("web", 1, 1, None), Err(ServiceError::NotDownloaded));
}

#[test]
fn verses_of_a_chapter_without_verses_are_an_empty_list() {
    let mut service = BibleService::new();
    let document = genesis_one();
    assert_eq!(service.load_verses("kjv", 66, 1, Some(&document)), Ok(vec![]));
    assert_eq!(service.load_verses("kjv", 66, 1, None), Ok(vec![]));
}

#[test]
fn verses_of_a_broken_document_are_a_parse_failure() {
    let mut service = BibleService::new();
    let r = service.load_verses("kjv", 1, 1, Some(b"<osis><verse osisID=\"Gen.1.1\">a</verse></other>"));
    match r {
        Err(ServiceError::ParseFailure(error)) => assert!(!error.reason.is_empty()),
        other => panic!("{:?}", other),
    }
    // Nothing was kept.
    assert_eq!(service.load_verses("kjv", 1, 1, None), Err(ServiceError::NotDownloaded));
}

#[test]
fn load_verses_with_takes_the_outcome_of_parsing() {
    let verse = Verse {
        id: "t:2:3:4".to_string(),
        translation_id: "t".to_string(),
        book_id: 2,
        chapter: 3,
        verse: 4,
        text: "x".to_string(),
    };
    let error = ParseError { position: 5, reason: "r".to_string() };
    let mut service = BibleService::new();
    assert_eq!(service.load_verses_with("t", 2, 3, None), Err(ServiceError::NotDownloaded));
    assert_eq!(
        service.load_verses_with("t", 2, 3, Some(Err(error.clone()))),
        Err(ServiceError::ParseFailure(error))
    );
    assert_eq!(service.load_verses_with("t", 2, 3, Some(Ok(vec![verse.clone()]))), Ok(vec![verse.clone()]));
    assert_eq!(service.load_verses_with("t", 2, 3, Some(Ok(vec![]))), Ok(vec![verse.clone()]));
    assert_eq!(service.load_verses_with("t", 2, 3, None), Ok(vec![verse]));
    assert_eq!(service.load_verses_with("t", 23, 0, None), Err(ServiceError::NotDownloaded));
}

#[test]
fn a_document_that_is_there_is_not_fetched_again() {
    let mut service = BibleService::new();
    assert_eq!(service.download_translation_xml("kjv", false), Err(ServiceError::NoDownloadUrl));
    assert_eq!(service.download_translation_xml("kjv", true), Err(ServiceError::NoDownloadUrl));
    let list = service.load_translations(translations_from_index(&index_with(&[
        ("kjv", Some("https://example.org/kjv.xml")),
        ("bundled", None),
    ])));
    assert_eq!(list.len(), 2);
    assert_eq!(list[0].id, "kjv");
    assert_eq!(
        service.download_translation_xml("kjv", false),
        Ok(DownloadStep::Fetch("https://example.org/kjv.xml".to_string()))
    );
    assert_eq!(service.download_translation_xml("kjv", true), Ok(DownloadStep::UseExisting));
    assert_eq!(service.download_translation_xml("bundled", false), Err(ServiceError::NoDownloadUrl));
    assert_eq!(service.download_translation_xml("bundled", true), Err(ServiceError::NoDownloadUrl));
    assert_eq!(service.download_translation_xml("unknown", false), Err(ServiceError::NoDownloadUrl));
}

#[test]
fn a_new_index_replaces_the_old_one() {
    let mut service = BibleService::new();
    service.load_translations(translations_from_index(&index_with(&[("a", Some("ua"))])));
    let list = service.load_translations(translations_from_index(&index_with(&[("b", Some("ub"))])));
    assert_eq!(list.len(), 1);
    assert_eq!(list[0].id, "b");
    assert_eq!(list[0].language, "en");
    assert_eq!(service.download_translation_xml("a", false), Err(ServiceError::NoDownloadUrl));
    assert_eq!(service.download_translation_xml("b", false), Ok(DownloadStep::Fetch("ub".to_string())));
}

#[test]
fn the_document_of_a_translation_has_a_fixed_name() {
    assert_eq!(document_file_name("kjv"), "kjv.xml");
    assert_eq!(document_file_name(""), ".xml");
    assert_eq!(document_file_name("tam-2017"), "tam-2017.xml");
    assert_eq!(DOCUMENT_DIRECTORY, "translations");
}

#[test]
fn the_default_translation_is_the_first_of_the_index() {
    let mut service = BibleService::new();
    assert_eq!(service.ensure_default_translation(true, false), None);
    service.load_translations(translations_from_index(&index_with(&[
        ("web", Some("u1")),
        ("asv", Some("u2")),
        ("web", Some("u3")),
    ])));
    assert_eq!(service.ensure_default_translation(true, false), Some("web".to_string()));
    assert_eq!(service.ensure_default_translation(true, true), None);
    assert_eq!(service.ensure_default_translation(false, false), None);
    assert_eq!(service.ensure_default_translation(false, true), None);
}

#[test]
fn search_looks_at_three_chapters_of_five_books() {
    let document = genesis_one();
    let mut service = BibleService::new();
    // Letter case does not matter.
    let hits = service.search_verses("kjv", "chapter", Some(&document));
    assert_eq!(hits.len(), 31);
    assert_eq!(hits[0].id, "kjv:1:1:1");
    assert_eq!(hits[30].id, "kjv:1:1:31");
    let hits = service.search_verses("kjv", "THE", Some(&document));
    let ids: Vec<&str> = hits.iter().map(|v| v.id.as_str()).collect();
    assert_eq!(ids.len(), 31 + 1 + 2);
    assert_eq!(&ids[31..], ["kjv:1:2:1", "kjv:2:1:1", "kjv:2:2:1"]);
    // The fourth chapter is never looked at.
    assert!(service.search_verses("kjv", "Adam", Some(&document)).is_empty());
    assert!(service.search_verses("kjv", "no such text", Some(&document)).is_empty());
    // Every verse holds the empty query.
    assert_eq!(service.search_verses("kjv", "", Some(&document)).len(), 31 + 1 + 2);
}

#[test]
fn search_without_a_document_finds_what_is_kept() {
    let document = genesis_one();
    let mut service = BibleService::new();
    assert!(service.search_verses("kjv", "verse", None).is_empty());
    service.load_verses("kjv", 1, 1, Some(&document)).unwrap();
    let hits = service.search_verses("kjv", "number 3", None);
    let numbers: Vec<u32> = hits.iter().map(|v| v.verse).collect();
    assert_eq!(numbers, vec![3, 30, 31]);
}

#[test]
fn search_is_bounded_by_the_catalog_before_download() {
    let mut service = BibleService::new();
    let verse = |book: u32, chapter: u32| Verse {
        id: format!("t:{}:{}:1", book, chapter),
        translation_id: "t".to_string(),
        book_id: book,
        chapter,
        verse: 1,
        text: "needle".to_string(),
    };
    for book in 1..=7 {
        for chapter in 0..=5 {
            service.load_verses_with("t", book, chapter, Some(Ok(vec![verse(book, chapter)]))).unwrap();
        }
    }
    let hits = service.search_verses("t", "NEEDLE", None);
    let places: Vec<(u32, u32)> = hits.iter().map(|v| (v.book_id, v.chapter)).collect();
    let mut expected = Vec::new();
    for book in 1..=5 {
        for chapter in 1..=3 {
            expected.push((book, chapter));
        }
    }
    assert_eq!(places, expected);
}

#[test]
fn a_hosted_nested_index_becomes_the_translations_of_the_store() {
    let document = IndexDocument {
        languages: vec![IndexLanguage {
            language: "English".to_string(),
            native_name: None,
            iso_code: None,
            translations: vec![IndexTranslation {
                id: "kjv".to_string(),
                name: "King James Version".to_string(),
                download_url: Some("https://example.org/kjv.xml".to_string()),
                metadata: None,
            }],
        }],
    };
    // The local file is missing, the hosted index is in the nested form.
    let place = match resolution_step(IndexSource::Local, None) {
        Resolution::Try(place) => place,
        _ => panic!("the hosted index comes after the local file"),
    };
    assert_eq!(place, IndexSource::Remote);
    let decoded = match nested_step(Some(document)) {
        DecodeStep::Resolved(index) => index,
        _ => panic!("the nested form fits"),
    };
    let index = match resolution_step(place, Some(decoded)) {
        Resolution::Resolved(index) => index,
        _ => panic!("an index ends the search"),
    };
    let mut service = BibleService::new();
    let translations = service.load_translations(index);
    assert_eq!(translations.len(), 1);
    assert_eq!(translations[0].id, "kjv");
    assert_eq!(translations[0].language_name, Some("English".to_string()));
    assert_eq!(translations[0].abbreviation, "KJV");
    assert_eq!(
        service.download_translation_xml("kjv", false),
        Ok(DownloadStep::Fetch("https://example.org/kjv.xml".to_string()))
    );
}
