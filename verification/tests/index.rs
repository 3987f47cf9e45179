use study_bible::chain::{
    first_source, legacy_step, nested_step, resolution_step, DecodeStep, IndexSource,
    LegacyShape, Resolution,
};
use study_bible::index::{
    bundled_index, translations_from_entries, translations_from_index, IndexDocument,
    IndexLanguage, IndexMetadata, IndexTranslation, LegacyEntry, ResolvedIndex,
};
use study_bible::entries::{entries_of_lines, no_later, object_lines, sort_entries};
use study_bible::types::Translation;

fn entry(id: &str, name: &str) -> LegacyEntry {
    LegacyEntry {
        id: id.to_string(),
        name: name.to_string(),
        abbr: None,
        lang: None,
        lang_name: None,
        description: None,
        download_url: None,
    }
}

fn kjv_document() -> IndexDocument {
    IndexDocument {
        languages: vec![IndexLanguage {
            language: "English".to_string(),
            native_name: None,
            iso_code: None,
            translations: vec![IndexTranslation {
                id: "kjv".to_string(),
                name: "King James Version".to_string(),
                download_url: Some("https://example.org/kjv.xml".to_string()),
                metadata: None,
            }],
        }],
    }
}

fn ids(index: &ResolvedIndex) -> Vec<String> {
    index.translations.iter().map(|t| t.id.clone()).collect()
}

#[test]
fn a_nested_index_yields_its_translations() {
    let index = translations_from_index(&kjv_document());
    assert_eq!(
        index.translations,
        vec![Translation {
            id: "kjv".to_string(),
            name: "King James Version".to_string(),
            abbreviation: "KJV".to_string(),
            language: "english".to_string(),
            language_name: Some("English".to_string()),
            description: "King James Version".to_string(),
            bundled: false,
            priority: 0,
        }]
    );
    assert_eq!(index.sources.get("kjv"), Some(&Some("https://example.org/kjv.xml".to_string())));
    assert_eq!(index.sources.get("web"), None);
}

#[test]
fn a_nested_index_is_walked_group_after_group() {
    let translation = |id: &str, name: &str, url: Option<&str>, info: Option<Option<&str>>| {
        IndexTranslation {
            id: id.to_string(),
            name: name.to_string(),
            download_url: url.map(|u| u.to_string()),
            metadata: info.map(|i| IndexMetadata { info: i.map(|s| s.to_string()) }),
        }
    };
    let document = IndexDocument {
        languages: vec![
            IndexLanguage {
                language: "Tamil".to_string(),
                native_name: Some("தமிழ்".to_string()),
                iso_code: Some("ta".to_string()),
                translations: vec![
                    translation("tam", "Tamil Bible", Some("u1"), Some(Some("Union version"))),
                    translation("dup", "First", Some("old"), Some(None)),
                ],
            },
            IndexLanguage {
                language: "Empty".to_string(),
                native_name: None,
                iso_code: None,
                translations: vec![],
            },
            IndexLanguage {
                language: "ENGLISH".to_string(),
                native_name: None,
                iso_code: None,
                translations: vec![
                    translation("web", "World English Bible", None, None),
                    translation("dup", "Second", Some("new"), None),
                ],
            },
        ],
    };
    let index = translations_from_index(&document);
    assert_eq!(ids(&index), vec!["tam", "dup", "web", "dup"]);
    let t = &index.translations[0];
    assert_eq!(t.abbreviation, "T");
    assert_eq!(t.language, "ta");
    assert_eq!(t.language_name, Some("தமிழ்".to_string()));
    assert_eq!(t.description, "Union version");
    assert_eq!(index.translations[1].description, "First");
    let t = &index.translations[2];
    assert_eq!(t.abbreviation, "WE");
    assert_eq!(t.language, "english");
    assert_eq!(t.language_name, Some("ENGLISH".to_string()));
    assert_eq!(t.description, "World English Bible");
    assert_eq!(index.sources.get("tam"), Some(&Some("u1".to_string())));
    assert_eq!(index.sources.get("web"), Some(&None));
    assert_eq!(index.sources.get("dup"), Some(&Some("new".to_string())));
    assert_eq!(index.sources.first_key(), Some(&"tam".to_string()));
    let empty = translations_from_index(&IndexDocument { languages: vec![] });
    assert!(empty.translations.is_empty());
    assert_eq!(empty.sources.first_key(), None);
}

#[test]
fn a_flat_index_yields_its_translations() {
    let full = LegacyEntry {
        id: "niv".to_string(),
        name: "New International Version".to_string(),
        abbr: Some("NIV84".to_string()),
        lang: Some("en".to_string()),
        lang_name: Some("English".to_string()),
        description: Some("The 1984 text".to_string()),
        download_url: Some("https://example.org/niv.xml".to_string()),
    };
    let index = translations_from_entries(&vec![full, entry("sow", "Some Obscure Work")]);
    assert_eq!(
        index.translations,
        vec![
            Translation {
                id: "niv".to_string(),
                name: "New International Version".to_string(),
                abbreviation: "NIV84".to_string(),
                language: "en".to_string(),
                language_name: Some("English".to_string()),
                description: "The 1984 text".to_string(),
                bundled: false,
                priority: 0,
            },
            Translation {
                id: "sow".to_string(),
                name: "Some Obscure Work".to_string(),
                abbreviation: "SOW".to_string(),
                language: "unknown".to_string(),
                language_name: None,
                description: "Some Obscure Work".to_string(),
                bundled: false,
                priority: 0,
            },
        ]
    );
    assert_eq!(index.sources.get("niv"), Some(&Some("https://example.org/niv.xml".to_string())));
    assert_eq!(index.sources.get("sow"), Some(&None));
}

#[test]
fn the_bundled_index_has_no_download_address() {
    let list = translations_from_index(&kjv_document()).translations;
    let index = bundled_index(list.clone());
    assert_eq!(index.translations, list);
    assert_eq!(index.sources.get("kjv"), None);
    assert_eq!(index.sources.first_key(), None);
}

#[test]
fn texts_are_ordered_like_strings() {
    let texts = ["", "a", "A", "ab", "abc", "abd", "b", "B", "kjv", "kjv2", "Z", "é", "z", "✓", "𝄞", "\u{ffff}"];
    for a in texts {
        for b in texts {
            assert_eq!(no_later(a, b), a <= b, "{:?}", (a, b));
        }
    }
}

#[test]
fn entries_are_sorted_by_id_and_equal_ids_keep_their_order() {
    let input = vec![
        entry("web", "1"),
        entry("asv", "2"),
        entry("kjv", "3"),
        entry("asv", "4"),
        entry("", "5"),
        entry("kjv", "6"),
        entry("Web", "7"),
    ];
    let mut expected: Vec<(String, String)> =
        input.iter().map(|e| (e.id.clone(), e.name.clone())).collect();
    expected.sort_by(|a, b| a.0.cmp(&b.0));
    let sorted: Vec<(String, String)> =
        sort_entries(input).into_iter().map(|e| (e.id, e.name)).collect();
    assert_eq!(sorted, expected);
    assert_eq!(sorted[0], ("".to_string(), "5".to_string()));
    assert_eq!(sorted[2], ("asv".to_string(), "2".to_string()));
    assert_eq!(sorted[3], ("asv".to_string(), "4".to_string()));
    assert!(sort_entries(vec![]).is_empty());
}

#[test]
fn lines_that_may_hold_an_entry_are_picked_out() {
    let text = "{\"id\":\"a\"}\n  {\"id\":\"b\"}  \r\n\nnot json\n{\n}\n{}\n{\"id\":\"c\"";
    assert_eq!(object_lines(text), vec!["{\"id\":\"a\"}", "{\"id\":\"b\"}", "{}"]);
    assert_eq!(object_lines(""), Vec::<String>::new());
    assert_eq!(object_lines("{}\n"), vec!["{}"]);
    assert_eq!(object_lines("\t{x}\t"), vec!["{x}"]);
    assert_eq!(object_lines("{"), Vec::<String>::new());
    let expected: Vec<String> = text
        .lines()
        .map(|l| l.trim())
        .filter(|l| l.starts_with('{') && l.ends_with('}'))
        .map(|l| l.to_string())
        .collect();
    assert_eq!(object_lines(text), expected);
}

#[test]
fn the_index_is_looked_for_in_three_places_in_order() {
    assert_eq!(first_source(), IndexSource::Local);
    assert!(matches!(resolution_step(IndexSource::Local, None), Resolution::Try(IndexSource::Remote)));
    assert!(matches!(resolution_step(IndexSource::Remote, None), Resolution::Try(IndexSource::Bundled)));
    assert!(matches!(resolution_step(IndexSource::Bundled, None), Resolution::Unavailable));
    for source in [IndexSource::Local, IndexSource::Remote, IndexSource::Bundled] {
        let found = translations_from_index(&kjv_document());
        match resolution_step(source, Some(found)) {
            Resolution::Resolved(index) => assert_eq!(ids(&index), vec!["kjv"]),
            _ => panic!("an index ends the search"),
        }
    }
}

#[test]
fn a_hosted_index_in_nested_form_is_taken_first() {
    match nested_step(Some(kjv_document())) {
        DecodeStep::Resolved(index) => {
            assert_eq!(index.translations.len(), 1);
            assert_eq!(index.translations[0].id, "kjv");
            assert_eq!(index.translations[0].language_name, Some("English".to_string()));
            assert_eq!(index.translations[0].abbreviation, "KJV");
        }
        _ => panic!("the nested form fits"),
    }
    assert!(matches!(nested_step(None), DecodeStep::Try(LegacyShape::List)));
}

#[test]
fn the_flat_shapes_are_tried_in_order() {
    assert!(matches!(legacy_step(LegacyShape::List, None), DecodeStep::Try(LegacyShape::Wrapped)));
    assert!(matches!(legacy_step(LegacyShape::Wrapped, None), DecodeStep::Try(LegacyShape::Keyed)));
    assert!(matches!(legacy_step(LegacyShape::Keyed, None), DecodeStep::Try(LegacyShape::Lines)));
    assert!(matches!(legacy_step(LegacyShape::Lines, None), DecodeStep::Failed));
    assert!(matches!(legacy_step(LegacyShape::Lines, Some(vec![])), DecodeStep::Failed));
}

#[test]
fn a_fitting_flat_shape_ends_the_search() {
    let entries = || vec![entry("web", "W"), entry("asv", "A")];
    let resolved = |step: DecodeStep| match step {
        DecodeStep::Resolved(index) => ids(&index),
        _ => panic!("the shape fits"),
    };
    assert_eq!(resolved(legacy_step(LegacyShape::List, Some(entries()))), vec!["web", "asv"]);
    assert_eq!(resolved(legacy_step(LegacyShape::Wrapped, Some(entries()))), vec!["web", "asv"]);
    assert_eq!(resolved(legacy_step(LegacyShape::Keyed, Some(entries()))), vec!["asv", "web"]);
    assert_eq!(resolved(legacy_step(LegacyShape::Lines, Some(entries()))), vec!["asv", "web"]);
    assert_eq!(resolved(legacy_step(LegacyShape::List, Some(vec![]))), Vec::<String>::new());
    assert_eq!(resolved(legacy_step(LegacyShape::Keyed, Some(vec![]))), Vec::<String>::new());
}

#[test]
fn lines_that_hold_no_entry_are_passed_over() {
    let outcomes = vec![None, Some(entry("b", "B")), None, Some(entry("a", "A")), None];
    let names: Vec<String> = entries_of_lines(outcomes).into_iter().map(|e| e.id).collect();
    assert_eq!(names, vec!["b", "a"]);
    assert!(entries_of_lines(vec![None, None]).is_empty());
    assert!(entries_of_lines(vec![]).is_empty());
}
