//! The markup parser: from the events of a verse-tagged document to the
//! verses of one chapter.
//!
//! A verse is an element named `verse` whose `osisID` attribute holds a
//! reference `Book.Chapter.Verse`. The scanner walks the events once. An
//! opening verse tag whose reference resolves to the wanted book and chapter
//! opens a verse; text that follows is gathered; the next closing `verse` tag
//! emits the verse. A self-closing verse tag with such a reference is a verse
//! without text and is emitted at once. Tags with a reference that cannot be
//! read, or with a book code that the catalog does not know, are passed over.

use crate::catalog::{code_book_id, osis_book_map, BookCodeMap};
use crate::osis::{opt_reference, osis_reference, parse_osis_chars, OsisReference, ReferenceView};
use crate::text::{chars_of, decimal, push_decimal, push_text, trim, trimmed};
use crate::types::{lemma_verse_views_push, verse_views, Verse, VerseView};
use crate::xml::{
    attribute_item_view, complete, document_events, event_views, lemma_complete_rest,
    next_event, open_reader, pending_events, plain_event, XmlAttributeView, XmlEvent,
    XmlEventView, XmlTag, XmlTagView,
};
use vstd::prelude::*;

verus! {

/// The name of a verse element: `verse`.
pub const VERSE_TAG: [u8; 5] = [118, 101, 114, 115, 101];

/// The key of the attribute that holds a verse's reference: `osisID`.
pub const OSIS_ID_KEY: [u8; 6] = [111, 115, 105, 115, 73, 68];

// ---------------------------------------------------------------------------
// What a tag refers to
// ---------------------------------------------------------------------------

/// The reference text of an attribute list: the value of the first attribute
/// with the key `osisID` whose value could be resolved.
pub open spec fn osis_id(attributes: Seq<Option<XmlAttributeView>>) -> Option<Seq<char>>
    decreases attributes.len(),
{
    if attributes.len() == 0 {
        None
    } else {
        match attributes[0] {
            Some(a) => if a.key == OSIS_ID_KEY@ && a.value is Some {
                a.value
            } else {
                osis_id(attributes.drop_first())
            },
            None => osis_id(attributes.drop_first()),
        }
    }
}

/// The reference of a tag: that of its `osisID` attribute if the tag is named
/// `verse` and the attribute's text is a reference.
pub open spec fn tag_reference(tag: XmlTagView) -> Option<ReferenceView> {
    if tag.name == VERSE_TAG@ {
        match osis_id(tag.attributes) {
            Some(text) => osis_reference(text),
            None => None,
        }
    } else {
        None
    }
}

/// The verse number under which a tag refers to a verse of the wanted
/// chapter: the tag has a reference, the catalog resolves its book code to
/// `book_id`, and its chapter is `chapter`. An opening tag opens that verse;
/// a self-closing tag is that verse.
pub open spec fn opens_verse(tag: XmlTagView, book_id: u32, chapter: u32) -> Option<u32> {
    match tag_reference(tag) {
        Some(reference) => if code_book_id(reference.book) == Some(book_id) && reference.chapter
            == chapter {
            Some(reference.verse)
        } else {
            None
        },
        None => None,
    }
}

fn is_verse_name(name: &Vec<u8>) -> (r: bool)
    ensures
        r == (name@ == VERSE_TAG@),
{
    if name.len() != 5 {
        return false;
    }
    let r = name[0] == VERSE_TAG[0] && name[1] == VERSE_TAG[1] && name[2] == VERSE_TAG[2]
        && name[3] == VERSE_TAG[3] && name[4] == VERSE_TAG[4];
    assert(r ==> name@ =~= VERSE_TAG@);
    r
}

fn is_osis_id_key(key: &Vec<u8>) -> (r: bool)
    ensures
        r == (key@ == OSIS_ID_KEY@),
{
    if key.len() != 6 {
        return false;
    }
    let r = key[0] == OSIS_ID_KEY[0] && key[1] == OSIS_ID_KEY[1] && key[2] == OSIS_ID_KEY[2]
        && key[3] == OSIS_ID_KEY[3] && key[4] == OSIS_ID_KEY[4] && key[5] == OSIS_ID_KEY[5];
    assert(r ==> key@ =~= OSIS_ID_KEY@);
    r
}

/// The reference that a tag carries.
pub(crate) fn read_tag_reference(tag: &XmlTag) -> (r: Option<OsisReference>)
    ensures
        opt_reference(r) == tag_reference(tag@),
{
    if !is_verse_name(&tag.name) {
        return None;
    }
    let ghost items = tag@.attributes;
    let mut i: usize = 0;
    assert(items.skip(0) == items);
    while i < tag.attributes.len()
        invariant
            i <= tag.attributes.len(),
            tag@.name == VERSE_TAG@,
            items == tag@.attributes,
            osis_id(items) == osis_id(items.skip(i as int)),
        decreases tag.attributes.len() - i,
    {
        let ghost rest = items.skip(i as int);
        assert(rest[0] == attribute_item_view(tag.attributes@[i as int]));
        assert(rest.drop_first() == items.skip(i + 1));
        match &tag.attributes[i] {
            Some(attribute) => {
                if is_osis_id_key(&attribute.key) {
                    match &attribute.value {
                        Some(value) => {
                            assert(osis_id(rest) == Some(value@));
                            let chars = chars_of(value.as_str());
                            return parse_osis_chars(&chars);
                        },
                        None => {},
                    }
                }
            },
            None => {},
        }
        i += 1;
    }
    assert(items.skip(i as int).len() == 0);
    None
}

// ---------------------------------------------------------------------------
// Scanning for the verses of one chapter
// ---------------------------------------------------------------------------

/// The identifier of a verse: translation, book, chapter and verse number,
/// joined by colons.
pub open spec fn verse_id(translation_id: Seq<char>, book_id: u32, chapter: u32, verse: u32) -> Seq<
    char,
> {
    translation_id + seq![':'] + decimal(book_id as nat) + seq![':'] + decimal(chapter as nat)
        + seq![':'] + decimal(verse as nat)
}

/// The verse that is emitted for a verse number and the text gathered for it.
pub open spec fn emitted_verse(
    translation_id: Seq<char>,
    book_id: u32,
    chapter: u32,
    verse: u32,
    text: Seq<char>,
) -> VerseView {
    VerseView {
        id: verse_id(translation_id, book_id, chapter, verse),
        translation_id,
        book_id,
        chapter,
        verse,
        text: trimmed(text),
    }
}

/// Where the scanner stands: the number of the verse that is open, if one is,
/// the text gathered for it, and the verses emitted so far.
pub ghost struct ScanState {
    pub open: Option<u32>,
    pub text: Seq<char>,
    pub verses: Seq<VerseView>,
}

/// The scanner before the first event.
pub open spec fn scan_start() -> ScanState {
    ScanState { open: None, text: Seq::empty(), verses: Seq::empty() }
}

/// The text that a text event adds: nothing where it could not be decoded.
pub open spec fn text_of(text: Option<Seq<char>>) -> Seq<char> {
    match text {
        Some(t) => t,
        None => Seq::empty(),
    }
}

/// What one event does to the scanner.
///
/// - An opening tag that opens a verse of the wanted chapter makes that verse
///   the open one and drops any text gathered before.
/// - A self-closing tag that refers to a verse of the wanted chapter emits
///   that verse with an empty text. No verse is open after it, and any text
///   gathered before is dropped.
/// - Text is added to the open verse.
/// - A closing `verse` tag emits the open verse with its text trimmed.
/// - Nothing else changes anything.
pub open spec fn scan_step(
    state: ScanState,
    event: XmlEventView,
    translation_id: Seq<char>,
    book_id: u32,
    chapter: u32,
) -> ScanState {
    match event {
        XmlEventView::Start(tag) => match opens_verse(tag, book_id, chapter) {
            Some(verse) => ScanState {
                open: Some(verse),
                text: Seq::empty(),
                verses: state.verses,
            },
            None => state,
        },
        XmlEventView::Empty(tag) => match opens_verse(tag, book_id, chapter) {
            Some(verse) => ScanState {
                open: None,
                text: Seq::empty(),
                verses: state.verses.push(
                    emitted_verse(translation_id, book_id, chapter, verse, Seq::empty()),
                ),
            },
            None => state,
        },
        XmlEventView::Text(text) => if state.open is Some {
            ScanState { open: state.open, text: state.text + text_of(text), verses: state.verses }
        } else {
            state
        },
        XmlEventView::End(name) => match state.open {
            Some(verse) => if name == VERSE_TAG@ {
                ScanState {
                    open: None,
                    text: Seq::empty(),
                    verses: state.verses.push(
                        emitted_verse(translation_id, book_id, chapter, verse, state.text),
                    ),
                }
            } else {
                state
            },
            None => state,
        },
        _ => state,
    }
}

/// Where a document is not well-formed, and why.
#[derive(Debug, Clone, PartialEq)]
pub struct ParseError {
    pub position: u64,
    pub reason: String,
}

/// A parse error with its reason as text.
pub ghost struct ParseErrorView {
    pub position: u64,
    pub reason: Seq<char>,
}

impl View for ParseError {
    type V = ParseErrorView;

    open spec fn view(&self) -> ParseErrorView {
        ParseErrorView { position: self.position, reason: self.reason@ }
    }
}

impl ParseError {
    /// The text of the error message.
    pub open spec fn message_text(self) -> Seq<char> {
        "XML error at pos "@ + decimal(self.position as nat) + ": "@ + self.reason@
    }

    /// The error as a message for the user.
    pub fn message(&self) -> (m: String)
        ensures
            m@ == self.message_text(),
    {
        let mut m = String::new();
        push_text(&mut m, "XML error at pos ");
        push_decimal(&mut m, self.position);
        push_text(&mut m, ": ");
        push_text(&mut m, self.reason.as_str());
        assert(m@ == Seq::<char>::empty() + "XML error at pos "@ + decimal(self.position as nat)
            + ": "@ + self.reason@);
        assert(Seq::<char>::empty() + "XML error at pos "@ == "XML error at pos "@);
        m
    }
}

/// What scanning the events from `state` on comes to: the verses emitted by
/// the time the document ends, or the error at which it stops being
/// well-formed. Events after the first final one are not looked at.
pub open spec fn scan(
    state: ScanState,
    events: Seq<XmlEventView>,
    translation_id: Seq<char>,
    book_id: u32,
    chapter: u32,
) -> Result<Seq<VerseView>, ParseErrorView>
    decreases events.len(),
{
    if events.len() == 0 {
        Ok(state.verses)
    } else {
        match events[0] {
            XmlEventView::Eof => Ok(state.verses),
            XmlEventView::Malformed { position, reason } => Err(
                ParseErrorView { position, reason },
            ),
            event => scan(
                scan_step(state, event, translation_id, book_id, chapter),
                events.drop_first(),
                translation_id,
                book_id,
                chapter,
            ),
        }
    }
}

/// The verses of one chapter of one book in a stream of events, in the order
/// of the document.
pub open spec fn verses_of_events(
    events: Seq<XmlEventView>,
    translation_id: Seq<char>,
    book_id: u32,
    chapter: u32,
) -> Result<Seq<VerseView>, ParseErrorView> {
    scan(scan_start(), events, translation_id, book_id, chapter)
}

/// The view of what parsing verses returns.
pub open spec fn verses_result(r: Result<Vec<Verse>, ParseError>) -> Result<
    Seq<VerseView>,
    ParseErrorView,
> {
    match r {
        Ok(verses) => Ok(verse_views(verses@)),
        Err(e) => Err(e@),
    }
}

fn make_verse(translation_id: &str, book_id: u32, chapter: u32, verse: u32, text: String) -> (v:
    Verse)
    ensures
        v@ == (VerseView {
            id: verse_id(translation_id@, book_id, chapter, verse),
            translation_id: translation_id@,
            book_id,
            chapter,
            verse,
            text: text@,
        }),
{
    let mut id = String::new();
    push_text(&mut id, translation_id);
    id.push(':');
    push_decimal(&mut id, book_id as u64);
    id.push(':');
    push_decimal(&mut id, chapter as u64);
    id.push(':');
    push_decimal(&mut id, verse as u64);
    assert(id@ =~= verse_id(translation_id@, book_id, chapter, verse));
    Verse { id, translation_id: translation_id.to_owned(), book_id, chapter, verse, text }
}

/// The scanner: the state of a scan together with what it looks for.
struct VerseScanner<'a> {
    translation_id: &'a str,
    book_id: u32,
    chapter: u32,
    codes: BookCodeMap,
    open: Option<u32>,
    text: Vec<char>,
    verses: Vec<Verse>,
}

impl<'a> VerseScanner<'a> {
    spec fn state(&self) -> ScanState {
        ScanState { open: self.open, text: self.text@, verses: verse_views(self.verses@) }
    }

    spec fn looks_for(&self, translation_id: Seq<char>, book_id: u32, chapter: u32) -> bool {
        &&& self.translation_id@ == translation_id
        &&& self.book_id == book_id
        &&& self.chapter == chapter
    }

    fn new(translation_id: &'a str, book_id: u32, chapter: u32) -> (scanner: Self)
        ensures
            scanner.looks_for(translation_id@, book_id, chapter),
            scanner.state() == scan_start(),
    {
        let scanner = VerseScanner {
            translation_id,
            book_id,
            chapter,
            codes: osis_book_map(),
            open: None,
            text: Vec::new(),
            verses: Vec::new(),
        };
        assert(verse_views(scanner.verses@) =~= Seq::<VerseView>::empty());
        scanner
    }

    /// The verse number under which `tag` opens a verse of the wanted chapter.
    fn opened_by(&self, tag: &XmlTag) -> (r: Option<u32>)
        ensures
            r == opens_verse(tag@, self.book_id, self.chapter),
    {
        match read_tag_reference(tag) {
            Some(reference) => {
                let code = chars_of(reference.book.as_str());
                match self.codes.get(&code) {
                    Some(id) => if id == self.book_id && reference.chapter == self.chapter {
                        Some(reference.verse)
                    } else {
                        None
                    },
                    None => None,
                }
            },
            None => None,
        }
    }

    /// Emits a verse under the number `verse` with the text `text`, and
    /// leaves no verse open.
    fn emit(&mut self, verse: u32, text: String)
        ensures
            forall|t: Seq<char>, b: u32, c: u32|
                old(self).looks_for(t, b, c) ==> final(self).looks_for(t, b, c),
            final(self).state() == (ScanState {
                open: None,
                text: Seq::empty(),
                verses: old(self).state().verses.push(
                    VerseView {
                        id: verse_id(
                            old(self).translation_id@,
                            old(self).book_id,
                            old(self).chapter,
                            verse,
                        ),
                        translation_id: old(self).translation_id@,
                        book_id: old(self).book_id,
                        chapter: old(self).chapter,
                        verse,
                        text: text@,
                    },
                ),
            }),
    {
        let emitted = make_verse(self.translation_id, self.book_id, self.chapter, verse, text);
        proof {
            lemma_verse_views_push(self.verses@, emitted);
        }
        self.verses.push(emitted);
        self.open = None;
        self.text = Vec::new();
    }

    fn step(&mut self, event: &XmlEvent)
        ensures
            forall|t: Seq<char>, b: u32, c: u32|
                old(self).looks_for(t, b, c) ==> final(self).looks_for(t, b, c),
            final(self).state() == scan_step(
                old(self).state(),
                event@,
                old(self).translation_id@,
                old(self).book_id,
                old(self).chapter,
            ),
    {
        match event {
            XmlEvent::Start(tag) => {
                match self.opened_by(tag) {
                    Some(verse) => {
                        self.open = Some(verse);
                        self.text = Vec::new();
                    },
                    None => {},
                }
            },
            XmlEvent::Empty(tag) => {
                match self.opened_by(tag) {
                    Some(verse) => {
                        assert(trimmed(Seq::<char>::empty()) == Seq::<char>::empty());
                        self.emit(verse, String::new());
                    },
                    None => {},
                }
            },
            XmlEvent::Text(text) => {
                if self.open.is_some() {
                    match text {
                        Some(t) => {
                            let mut chars = chars_of(t.as_str());
                            self.text.append(&mut chars);
                        },
                        None => {
                            assert(self.text@ + Seq::<char>::empty() == self.text@);
                        },
                    }
                }
            },
            XmlEvent::End(name) => {
                match self.open {
                    Some(verse) => {
                        if is_verse_name(name) {
                            let text = trim(&self.text);
                            self.emit(verse, text);
                        }
                    },
                    None => {},
                }
            },
            _ => {},
        }
    }
}

/// The verses of one chapter of one book among the events of a document, in
/// the order of the document. Fails where the events end with an error.
pub fn verses_from_events(
    events: &Vec<XmlEvent>,
    translation_id: &str,
    target_book_id: u32,
    target_chapter: u32,
) -> (r: Result<Vec<Verse>, ParseError>)
    ensures
        verses_result(r) == verses_of_events(
            event_views(events@),
            translation_id@,
            target_book_id,
            target_chapter,
        ),
{
    let ghost all = event_views(events@);
    let ghost goal = verses_of_events(all, translation_id@, target_book_id, target_chapter);
    let mut scanner = VerseScanner::new(translation_id, target_book_id, target_chapter);
    let mut i: usize = 0;
    assert(all.skip(0) == all);
    while i < events.len()
        invariant
            i <= events.len(),
            all == event_views(events@),
            goal == verses_of_events(all, translation_id@, target_book_id, target_chapter),
            scanner.looks_for(translation_id@, target_book_id, target_chapter),
            goal == scan(
                scanner.state(),
                all.skip(i as int),
                translation_id@,
                target_book_id,
                target_chapter,
            ),
        decreases events.len() - i,
    {
        let ghost rest = all.skip(i as int);
        assert(rest[0] == events@[i as int]@);
        assert(rest.drop_first() == all.skip(i + 1));
        match &events[i] {
            XmlEvent::Eof => {
                assert(rest[0] is Eof);
                let verses = scanner.verses;
                assert(goal == Ok::<Seq<VerseView>, ParseErrorView>(verse_views(verses@)));
                return Ok(verses);
            },
            XmlEvent::Malformed { position, reason } => {
                assert(rest[0] is Malformed);
                let error = ParseError { position: *position, reason: reason.clone() };
                assert(goal == Err::<Seq<VerseView>, ParseErrorView>(error@));
                return Err(error);
            },
            event => {
                scanner.step(event);
            },
        }
        i += 1;
    }
    assert(all.skip(i as int).len() == 0);
    Ok(scanner.verses)
}

/// The verses of one chapter of one book in a document, in the order of the
/// document. A document without a matching verse gives an empty list; only a
/// document that is not well-formed gives an error.
pub fn parse_verses(
    document: &[u8],
    translation_id: &str,
    target_book_id: u32,
    target_chapter: u32,
) -> (r: Result<Vec<Verse>, ParseError>)
    ensures
        verses_result(r) == verses_of_events(
            document_events(document@),
            translation_id@,
            target_book_id,
            target_chapter,
        ),
{
    let ghost goal = verses_of_events(
        document_events(document@),
        translation_id@,
        target_book_id,
        target_chapter,
    );
    let mut reader = open_reader(document);
    let mut scanner = VerseScanner::new(translation_id, target_book_id, target_chapter);
    loop
        invariant
            complete(pending_events(reader)),
            goal == verses_of_events(
                document_events(document@),
                translation_id@,
                target_book_id,
                target_chapter,
            ),
            scanner.looks_for(translation_id@, target_book_id, target_chapter),
            goal == scan(
                scanner.state(),
                pending_events(reader),
                translation_id@,
                target_book_id,
                target_chapter,
            ),
        decreases pending_events(reader).len(),
    {
        let ghost before = pending_events(reader);
        let event = plain_event(next_event(&mut reader));
        match event {
            XmlEvent::Eof => {
                assert(before[0] is Eof);
                let verses = scanner.verses;
                assert(goal == Ok::<Seq<VerseView>, ParseErrorView>(verse_views(verses@)));
                return Ok(verses);
            },
            XmlEvent::Malformed { position, reason } => {
                assert(before[0] is Malformed);
                let error = ParseError { position, reason };
                assert(goal == Err::<Seq<VerseView>, ParseErrorView>(error@));
                return Err(error);
            },
            other => {
                proof {
                    lemma_complete_rest(before);
                }
                scanner.step(&other);
            },
        }
    }
}

} // verus!
