use study_bible::chapters::{
    books_from_counts, chapter_counts_from_events, parse_book_chapter_counts, parse_books,
};
use study_bible::markup::{parse_verses, verses_from_events, ParseError};
use study_bible::types::{Testament, Verse};
use study_bible::xml::{XmlAttribute, XmlEvent, XmlTag};

fn verse(translation: &str, book: u32, chapter: u32, number: u32, text: &str) -> Verse {
    Verse {
        id: format!("{}:{}:{}:{}", translation, book, chapter, number),
        translation_id: translation.to_string(),
        book_id: book,
        chapter,
        verse: number,
        text: text.to_string(),
    }
}

fn attribute(key: &str, value: &str) -> Option<XmlAttribute> {
    Some(XmlAttribute { key: key.as_bytes().to_vec(), value: Some(value.to_string()) })
}

fn verse_tag(reference: &str) -> XmlTag {
    XmlTag { name: b"verse".to_vec(), attributes: vec![attribute("osisID", reference)] }
}

fn element(reference: &str, text: &str) -> Vec<XmlEvent> {
    vec![
        XmlEvent::Start(verse_tag(reference)),
        XmlEvent::Text(Some(text.to_string())),
        XmlEvent::End(b"verse".to_vec()),
    ]
}

#[test]
fn parse_verses_keeps_the_wanted_chapter_in_document_order() {
    let document = br#"<?xml version="1.0"?>
<osis>
  <verse osisID="Gen.1.1">  In the beginning  </verse>
  <verse osisID="Gen.1.2">And the earth</verse>
  <verse osisID="Gen.2.1">Thus the heavens</verse>
  <verse osisID="Exod.1.1">Now these are the names</verse>
</osis>"#;
    let verses = parse_verses(document, "kjv", 1, 1).unwrap();
    assert_eq!(
        verses,
        vec![
            verse("kjv", 1, 1, 1, "In the beginning"),
            verse("kjv", 1, 1, 2, "And the earth"),
        ]
    );
}

#[test]
fn parse_verses_does_not_sort() {
    let document = br#"<osis><verse osisID="Gen.1.3">c</verse><verse osisID="Gen.1.1">a</verse></osis>"#;
    let verses = parse_verses(document, "kjv", 1, 1).unwrap();
    assert_eq!(verses, vec![verse("kjv", 1, 1, 3, "c"), verse("kjv", 1, 1, 1, "a")]);
}

#[test]
fn parse_verses_without_a_match_is_empty_not_an_error() {
    let document = br#"<osis><verse osisID="Gen.1.1">a</verse><p>text</p></osis>"#;
    assert_eq!(parse_verses(document, "kjv", 2, 1), Ok(vec![]));
    assert_eq!(parse_verses(document, "kjv", 1, 2), Ok(vec![]));
    assert_eq!(parse_verses(b"", "kjv", 1, 1), Ok(vec![]));
    assert_eq!(parse_verses(b"no markup at all", "kjv", 1, 1), Ok(vec![]));
}

#[test]
fn parse_verses_skips_codes_that_the_catalog_does_not_know() {
    let document = br#"<osis><verse osisID="Xyz.1.1">a</verse><verse osisID="Gen.1.1">b</verse></osis>"#;
    assert_eq!(parse_verses(document, "kjv", 1, 1), Ok(vec![verse("kjv", 1, 1, 1, "b")]));
}

#[test]
fn parse_verses_skips_references_that_cannot_be_read() {
    let document = br#"<osis><verse osisID="Gen.1">a</verse><verse osisID="Gen.x.1">b</verse><verse osisID="Gen.1.-1">c</verse><verse>d</verse><verse osisID="Gen.1.4">e</verse></osis>"#;
    assert_eq!(parse_verses(document, "kjv", 1, 1), Ok(vec![verse("kjv", 1, 1, 4, "e")]));
}

#[test]
fn parse_verses_fails_on_a_document_that_is_not_well_formed() {
    let document = br#"<osis><verse osisID="Gen.1.1">a</verse></wrong>"#;
    let error = parse_verses(document, "kjv", 1, 1).unwrap_err();
    assert!(error.message().starts_with("XML error at pos "));
    assert!(error.message().contains(&error.reason));
    assert!(!error.reason.is_empty());
}

#[test]
fn parse_error_message_names_position_and_reason() {
    let error = ParseError { position: 1207, reason: "ill-formed document".to_string() };
    assert_eq!(error.message(), "XML error at pos 1207: ill-formed document");
    let error = ParseError { position: 0, reason: String::new() };
    assert_eq!(error.message(), "XML error at pos 0: ");
}

#[test]
fn parse_verses_joins_the_text_inside_a_verse() {
    let document = br#"<osis><verse osisID="John.3.16">For God <w lemma="x">so</w> loved</verse></osis>"#;
    let verses = parse_verses(document, "web", 43, 3).unwrap();
    assert_eq!(verses, vec![verse("web", 43, 3, 16, "For Godsoloved")]);
}

#[test]
fn parse_verses_resolves_references_in_attribute_values() {
    let document = br#"<osis><verse n="1" osisID="Gen.&#49;.1">a &amp; b</verse></osis>"#;
    let verses = parse_verses(document, "kjv", 1, 1).unwrap();
    assert_eq!(verses.len(), 1);
    assert_eq!(verses[0].verse, 1);
    assert_eq!(verses[0].text, "ab");
}

#[test]
fn a_self_closing_verse_tag_is_a_verse_without_text() {
    let document = br#"<osis><verse osisID="Gen.1.1"/></osis>"#;
    assert_eq!(parse_verses(document, "kjv", 1, 1), Ok(vec![verse("kjv", 1, 1, 1, "")]));
    assert_eq!(parse_verses(document, "kjv", 1, 2), Ok(vec![]));
    assert_eq!(parse_verses(document, "kjv", 2, 1), Ok(vec![]));

    let document = br#"<osis><verse osisID="Gen.1.1">one</verse><verse osisID="Gen.1.2"/><verse osisID="Exod.1.3"/><verse osisID="Gen.1.4">four</verse></osis>"#;
    assert_eq!(
        parse_verses(document, "kjv", 1, 1),
        Ok(vec![verse("kjv", 1, 1, 1, "one"), verse("kjv", 1, 1, 2, ""), verse("kjv", 1, 1, 4, "four")])
    );
}

#[test]
fn a_self_closing_verse_tag_leaves_no_verse_open() {
    // Text after the tag belongs to no verse, and a closing tag emits nothing.
    let events = vec![
        XmlEvent::Empty(verse_tag("Gen.1.1")),
        XmlEvent::Text(Some("milestone text".to_string())),
        XmlEvent::End(b"verse".to_vec()),
        XmlEvent::Eof,
    ];
    assert_eq!(verses_from_events(&events, "kjv", 1, 1), Ok(vec![verse("kjv", 1, 1, 1, "")]));
    // A verse that was open is given up, with its text.
    let events = vec![
        XmlEvent::Start(verse_tag("Gen.1.1")),
        XmlEvent::Text(Some("lost".to_string())),
        XmlEvent::Empty(verse_tag("Gen.1.2")),
        XmlEvent::Text(Some("outside".to_string())),
        XmlEvent::End(b"verse".to_vec()),
        XmlEvent::Eof,
    ];
    assert_eq!(verses_from_events(&events, "kjv", 1, 1), Ok(vec![verse("kjv", 1, 1, 2, "")]));
    // One of another chapter changes nothing.
    let events = vec![
        XmlEvent::Start(verse_tag("Gen.1.1")),
        XmlEvent::Text(Some("kept".to_string())),
        XmlEvent::Empty(verse_tag("Gen.2.1")),
        XmlEvent::Text(Some(" on".to_string())),
        XmlEvent::End(b"verse".to_vec()),
        XmlEvent::Eof,
    ];
    assert_eq!(verses_from_events(&events, "kjv", 1, 1), Ok(vec![verse("kjv", 1, 1, 1, "kept on")]));
}

#[test]
fn parse_verses_skips_references_of_four_parts() {
    let document = br#"<osis><verse osisID="Gen.1.1.5">a</verse><verse osisID="Gen.1.2">b</verse><verse osisID="Gen.1.3."/></osis>"#;
    assert_eq!(parse_verses(document, "kjv", 1, 1), Ok(vec![verse("kjv", 1, 1, 2, "b")]));
    let counts = parse_book_chapter_counts(br#"<osis><verse osisID="Gen.7.1.5"/><verse osisID="Gen.2.1"/></osis>"#).unwrap();
    assert_eq!(counts.get("Gen"), Some(2));
}

#[test]
fn verses_from_events_emits_at_the_closing_tag() {
    let events = vec![
        XmlEvent::Start(verse_tag("Gen.1.1")),
        XmlEvent::Text(Some(" In the ".to_string())),
        XmlEvent::Other,
        XmlEvent::Text(None),
        XmlEvent::Text(Some("beginning ".to_string())),
        XmlEvent::End(b"w".to_vec()),
        XmlEvent::End(b"verse".to_vec()),
        XmlEvent::End(b"verse".to_vec()),
        XmlEvent::Eof,
    ];
    let verses = verses_from_events(&events, "kjv", 1, 1).unwrap();
    assert_eq!(verses, vec![verse("kjv", 1, 1, 1, "In the beginning")]);
}

#[test]
fn verses_from_events_gives_one_verse_for_each_element_of_the_chapter() {
    let mut events = Vec::new();
    events.extend(element("Gen.1.1", "one"));
    events.extend(element("Exod.1.2", "other book"));
    events.extend(element("Gen.1.2", "two"));
    events.extend(element("Gen.2.3", "other chapter"));
    events.extend(element("Gen.1.3", "three"));
    events.push(XmlEvent::Eof);
    let verses = verses_from_events(&events, "t", 1, 1).unwrap();
    assert_eq!(
        verses,
        vec![verse("t", 1, 1, 1, "one"), verse("t", 1, 1, 2, "two"), verse("t", 1, 1, 3, "three")]
    );
}

#[test]
fn verses_from_events_stops_at_the_first_final_event() {
    let mut events = element("Gen.1.1", "one");
    events.push(XmlEvent::Eof);
    events.extend(element("Gen.1.2", "two"));
    assert_eq!(verses_from_events(&events, "t", 1, 1), Ok(vec![verse("t", 1, 1, 1, "one")]));

    let mut events = element("Gen.1.1", "one");
    events.push(XmlEvent::Malformed { position: 9, reason: "broken".to_string() });
    events.push(XmlEvent::Eof);
    assert_eq!(
        verses_from_events(&events, "t", 1, 1),
        Err(ParseError { position: 9, reason: "broken".to_string() })
    );
    assert_eq!(verses_from_events(&Vec::new(), "t", 1, 1), Ok(vec![]));
}

#[test]
fn the_first_readable_osis_id_counts() {
    let tag = XmlTag {
        name: b"verse".to_vec(),
        attributes: vec![
            None,
            Some(XmlAttribute { key: b"osisID".to_vec(), value: None }),
            attribute("sID", "Gen.1.9"),
            attribute("osisID", "Gen.1.5"),
            attribute("osisID", "Gen.1.6"),
        ],
    };
    let events = vec![
        XmlEvent::Start(tag),
        XmlEvent::Text(Some("x".to_string())),
        XmlEvent::End(b"verse".to_vec()),
    ];
    assert_eq!(verses_from_events(&events, "t", 1, 1), Ok(vec![verse("t", 1, 1, 5, "x")]));
}

#[test]
fn a_tag_of_another_name_opens_nothing() {
    let tag = XmlTag { name: b"Verse".to_vec(), attributes: vec![attribute("osisID", "Gen.1.1")] };
    let events = vec![
        XmlEvent::Start(tag),
        XmlEvent::Text(Some("x".to_string())),
        XmlEvent::End(b"verse".to_vec()),
    ];
    assert_eq!(verses_from_events(&events, "t", 1, 1), Ok(vec![]));
}

#[test]
fn chapter_counts_hold_the_largest_chapter_of_each_known_code() {
    let document = br#"<osis>
<verse osisID="Gen.1.1">a</verse><verse osisID="Gen.3.1"/><verse osisID="Gen.2.1">b</verse>
<verse osisID="Rev.22.21">c</verse><verse osisID="Xyz.9.1">d</verse><verse osisID="Ps.0.1">e</verse>
</osis>"#;
    let counts = parse_book_chapter_counts(document).unwrap();
    assert_eq!(counts.get("Gen"), Some(3));
    assert_eq!(counts.get("Rev"), Some(22));
    assert_eq!(counts.get("Ps"), Some(0));
    assert_eq!(counts.get("Xyz"), None);
    assert_eq!(counts.get("Exod"), None);
}

#[test]
fn chapter_counts_from_events_match_the_document() {
    let mut events = Vec::new();
    events.extend(element("Matt.5.3", "a"));
    events.extend(element("Matt.28.1", "b"));
    events.extend(element("Matt.7.1", "c"));
    events.push(XmlEvent::Eof);
    let counts = chapter_counts_from_events(&events).unwrap();
    assert_eq!(counts.get("Matt"), Some(28));
    assert_eq!(counts.get("Mark"), None);
    let books = books_from_counts(&counts);
    assert_eq!(books.len(), 1);
    assert_eq!(books[0].id, 40);
    assert_eq!(books[0].name, "Matthew");
    assert_eq!(books[0].testament, Testament::NT);
    assert_eq!(books[0].chapter_count, 28);

    let broken = vec![XmlEvent::Malformed { position: 3, reason: "r".to_string() }];
    assert_eq!(
        chapter_counts_from_events(&broken).err(),
        Some(ParseError { position: 3, reason: "r".to_string() })
    );
}

#[test]
fn parse_books_lists_the_observed_books_in_canonical_order() {
    let document = br#"<osis>
<verse osisID="Rev.2.1">c</verse><verse osisID="Gen.1.1">a</verse><verse osisID="Gen.50.26">b</verse>
<verse osisID="Zzz.1.1">d</verse><verse osisID="Exod.12.1">e</verse>
</osis>"#;
    let books = parse_books(document).unwrap();
    let summary: Vec<(u32, &str, u32, u32)> = books
        .iter()
        .map(|b| (b.id, b.abbreviation.as_str(), b.order_index, b.chapter_count))
        .collect();
    assert_eq!(summary, vec![(1, "Gen", 1, 50), (2, "Exod", 2, 12), (66, "Rev", 66, 2)]);
    assert_eq!(parse_books(b"<osis/>"), Ok(vec![]));
    assert!(parse_books(b"<a></b>").is_err());
}

#[test]
fn only_character_data_counts_as_text() {
    let document = b"\xEF\xBB\xBF<osis><verse osisID=\"Gen.1.1\"><!-- note --><![CDATA[hidden]]>seen<?pi x?>\n\t too </verse></osis>";
    assert_eq!(parse_verses(document, "t", 1, 1), Ok(vec![verse("t", 1, 1, 1, "seentoo")]));
}

#[test]
fn text_that_cannot_be_decoded_counts_as_nothing() {
    let document = b"<osis><verse osisID=\"Gen.1.1\">\xff\xfe</verse><verse osisID=\"Gen.1.2\">ok</verse></osis>";
    assert_eq!(
        parse_verses(document, "t", 1, 1),
        Ok(vec![verse("t", 1, 1, 1, ""), verse("t", 1, 1, 2, "ok")])
    );
}

#[test]
fn a_verse_that_is_opened_again_starts_afresh() {
    let events = vec![
        XmlEvent::Start(verse_tag("Gen.1.1")),
        XmlEvent::Text(Some("lost".to_string())),
        XmlEvent::Start(verse_tag("Exod.1.1")),
        XmlEvent::Text(Some(" kept by the first ".to_string())),
        XmlEvent::Start(verse_tag("Gen.1.2")),
        XmlEvent::Text(Some("second".to_string())),
        XmlEvent::End(b"verse".to_vec()),
        XmlEvent::Text(Some("outside".to_string())),
        XmlEvent::End(b"verse".to_vec()),
        XmlEvent::Eof,
    ];
    assert_eq!(verses_from_events(&events, "t", 1, 1), Ok(vec![verse("t", 1, 1, 2, "second")]));
    let events = vec![
        XmlEvent::Start(verse_tag("Gen.1.1")),
        XmlEvent::Text(Some("first".to_string())),
        XmlEvent::Start(verse_tag("Exod.1.1")),
        XmlEvent::Text(Some(" and more".to_string())),
        XmlEvent::End(b"verse".to_vec()),
    ];
    assert_eq!(
        verses_from_events(&events, "t", 1, 1),
        Ok(vec![verse("t", 1, 1, 1, "first and more")])
    );
}

#[test]
fn duplicate_references_give_duplicate_verses() {
    let document = br#"<osis><verse osisID="Gen.1.1">a</verse><verse osisID="Gen.1.1">b</verse></osis>"#;
    assert_eq!(
        parse_verses(document, "t", 1, 1),
        Ok(vec![verse("t", 1, 1, 1, "a"), verse("t", 1, 1, 1, "b")])
    );
}

#[test]
fn attributes_are_read_one_by_one() {
    let document = br#"<osis>
<verse osisID="Gen.1.5" osisID="Gen.1.6">twice</verse>
<verse broken osisID="Gen.1.7">after a broken one</verse>
<verse osisID="&unknown;" osisID='Gen.1.8'>after an unreadable one</verse>
<verse n="x" osisID = "Gen.1.9" type="y">spaced</verse>
</osis>"#;
    let verses = parse_verses(document, "t", 1, 1).unwrap();
    let found: Vec<(u32, &str)> = verses.iter().map(|v| (v.verse, v.text.as_str())).collect();
    assert_eq!(
        found,
        vec![
            (5, "twice"),
            (7, "after a broken one"),
            (8, "after an unreadable one"),
            (9, "spaced"),
        ]
    );
}
