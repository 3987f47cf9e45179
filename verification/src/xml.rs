//! The boundary to the XML tokenizer.
//!
//! A document is read as a stream of events. The tokenizer itself is
//! `quick_xml`; what it hands out is named here, not proved: the events of a
//! document, the events a reader has yet to hand out, and the name and
//! attributes of a tag. Everything else in the crate is proved against these
//! names.

use quick_xml::events::attributes::{AttrError, Attribute, Attributes};
use quick_xml::events::{BytesStart, Event};
use quick_xml::Reader;
use std::borrow::Cow;
use vstd::prelude::*;

verus! {

// ---------------------------------------------------------------------------
// Events as plain values
// ---------------------------------------------------------------------------

/// One attribute of a tag: its key as written, and its value with character
/// and entity references resolved. `value` is `None` where the value could
/// not be decoded or resolved.
#[derive(Debug, Clone, PartialEq)]
pub struct XmlAttribute {
    pub key: Vec<u8>,
    pub value: Option<String>,
}

/// An attribute with its key as bytes and its value as text.
pub ghost struct XmlAttributeView {
    pub key: Seq<u8>,
    pub value: Option<Seq<char>>,
}

impl View for XmlAttribute {
    type V = XmlAttributeView;

    open spec fn view(&self) -> XmlAttributeView {
        XmlAttributeView {
            key: self.key@,
            value: match self.value {
                Some(v) => Some(v@),
                None => None,
            },
        }
    }
}

/// The view of one item of a tag's attribute list. `None` stands for a
/// stretch of the tag that is no well-formed attribute.
pub open spec fn attribute_item_view(item: Option<XmlAttribute>) -> Option<XmlAttributeView> {
    match item {
        Some(a) => Some(a@),
        None => None,
    }
}

/// An opening or self-closing tag: its name and its attribute list, in the
/// order of the document.
#[derive(Debug, Clone, PartialEq)]
pub struct XmlTag {
    pub name: Vec<u8>,
    pub attributes: Vec<Option<XmlAttribute>>,
}

/// A tag with its name as bytes and its attributes as views.
pub ghost struct XmlTagView {
    pub name: Seq<u8>,
    pub attributes: Seq<Option<XmlAttributeView>>,
}

/// The views of the items of an attribute list.
pub open spec fn attribute_views(items: Seq<Option<XmlAttribute>>) -> Seq<
    Option<XmlAttributeView>,
> {
    items.map_values(|item: Option<XmlAttribute>| attribute_item_view(item))
}

impl View for XmlTag {
    type V = XmlTagView;

    open spec fn view(&self) -> XmlTagView {
        XmlTagView { name: self.name@, attributes: attribute_views(self.attributes@) }
    }
}

/// One event of a document.
#[derive(Debug, Clone, PartialEq)]
pub enum XmlEvent {
    /// `<name ...>`
    Start(XmlTag),
    /// `<name ... />`
    Empty(XmlTag),
    /// Character data between tags, decoded; `None` where it is not valid in
    /// the document's encoding.
    Text(Option<String>),
    /// `</name>`
    End(Vec<u8>),
    /// Anything else: comments, declarations, references and the like.
    Other,
    /// The end of the document.
    Eof,
    /// The document is not well-formed at `position`.
    Malformed { position: u64, reason: String },
}

/// An event with its bytes and texts as sequences.
pub ghost enum XmlEventView {
    Start(XmlTagView),
    Empty(XmlTagView),
    Text(Option<Seq<char>>),
    End(Seq<u8>),
    Other,
    Eof,
    Malformed { position: u64, reason: Seq<char> },
}

impl View for XmlEvent {
    type V = XmlEventView;

    open spec fn view(&self) -> XmlEventView {
        match self {
            XmlEvent::Start(tag) => XmlEventView::Start(tag@),
            XmlEvent::Empty(tag) => XmlEventView::Empty(tag@),
            XmlEvent::Text(text) => XmlEventView::Text(
                match text {
                    Some(t) => Some(t@),
                    None => None,
                },
            ),
            XmlEvent::End(name) => XmlEventView::End(name@),
            XmlEvent::Other => XmlEventView::Other,
            XmlEvent::Eof => XmlEventView::Eof,
            XmlEvent::Malformed { position, reason } => XmlEventView::Malformed {
                position: *position,
                reason: reason@,
            },
        }
    }
}

/// The views of a list of events.
pub open spec fn event_views(events: Seq<XmlEvent>) -> Seq<XmlEventView> {
    events.map_values(|e: XmlEvent| e@)
}

/// An event after which a document holds nothing more to read.
pub open spec fn is_final(event: XmlEventView) -> bool {
    event is Eof || event is Malformed
}

/// A stream of events that ends with its only final event.
pub open spec fn complete(events: Seq<XmlEventView>) -> bool {
    &&& events.len() > 0
    &&& is_final(events.last())
    &&& forall|i: int| 0 <= i < events.len() - 1 ==> !is_final(#[trigger] events[i])
}

/// What is left of a complete stream after an event that is not final is
/// complete too.
pub proof fn lemma_complete_rest(events: Seq<XmlEventView>)
    requires
        complete(events),
        !is_final(events[0]),
    ensures
        complete(events.drop_first()),
{
    let rest = events.drop_first();
    assert(events.len() > 1);
    assert(rest.last() == events.last());
    assert forall|i: int| 0 <= i < rest.len() - 1 implies !is_final(#[trigger] rest[i]) by {
        assert(rest[i] == events[i + 1]);
    }
}

// ---------------------------------------------------------------------------
// The tokenizer
// ---------------------------------------------------------------------------

/// `quick_xml::Reader`: the tokenizer. Nothing of its inside is looked at.
#[verifier::external_type_specification]
#[verifier::external_body]
#[verifier::reject_recursive_types(R)]
pub struct ExReader<R>(Reader<R>);

/// `quick_xml::events::BytesStart`: an opening or self-closing tag as the
/// tokenizer hands it out. Nothing of its inside is looked at.
#[verifier::external_type_specification]
#[verifier::external_body]
pub struct ExBytesStart<'a>(BytesStart<'a>);

/// `quick_xml::events::attributes::Attributes`: the iterator over the
/// attribute list of a tag. Nothing of its inside is looked at.
#[verifier::external_type_specification]
#[verifier::external_body]
pub struct ExAttributes<'a>(Attributes<'a>);

/// `quick_xml::events::attributes::Attribute`: an attribute as the iterator
/// hands it out. Nothing of its inside is looked at.
#[verifier::external_type_specification]
#[verifier::external_body]
pub struct ExAttribute<'a>(Attribute<'a>);

/// `quick_xml::events::attributes::AttrError`: why a stretch of a tag is no
/// attribute. Nothing of its inside is looked at.
#[verifier::external_type_specification]
#[verifier::external_body]
pub struct ExAttrError(AttrError);

/// The events of a document: what a reader over its bytes hands out, with
/// text trimmed, up to and including the end of the document or the first
/// place where it is not well-formed.
pub uninterp spec fn document_events(document: Seq<u8>) -> Seq<XmlEventView>;

/// The events that a reader has yet to hand out, up to and including the end
/// of the document or the first place where it is not well-formed.
pub uninterp spec fn pending_events(reader: Reader<&[u8]>) -> Seq<XmlEventView>;

/// The name of a tag, as written.
pub uninterp spec fn tag_name_bytes(tag: BytesStart<'_>) -> Seq<u8>;

/// The attribute list of a tag, in the order of the document, duplicates
/// included.
pub uninterp spec fn tag_attribute_items(tag: BytesStart<'_>) -> Seq<Option<XmlAttributeView>>;

/// The items that an iterator over the attribute list of a tag has yet to
/// hand out.
pub uninterp spec fn pending_attributes(attributes: Attributes<'_>) -> Seq<
    Option<XmlAttributeView>,
>;

/// An event as the tokenizer hands it out: a tag is still in the tokenizer's
/// own form.
pub enum RawEvent<'a> {
    Start(BytesStart<'a>),
    Empty(BytesStart<'a>),
    Text(Option<String>),
    End(Vec<u8>),
    Other,
    Eof,
    Malformed { position: u64, reason: String },
}

/// What a tag in the tokenizer's form holds.
pub open spec fn raw_tag_view(tag: BytesStart<'_>) -> XmlTagView {
    XmlTagView { name: tag_name_bytes(tag), attributes: tag_attribute_items(tag) }
}

impl View for RawEvent<'_> {
    type V = XmlEventView;

    open spec fn view(&self) -> XmlEventView {
        match self {
            RawEvent::Start(tag) => XmlEventView::Start(raw_tag_view(*tag)),
            RawEvent::Empty(tag) => XmlEventView::Empty(raw_tag_view(*tag)),
            RawEvent::Text(text) => XmlEventView::Text(
                match text {
                    Some(t) => Some(t@),
                    None => None,
                },
            ),
            RawEvent::End(name) => XmlEventView::End(name@),
            RawEvent::Other => XmlEventView::Other,
            RawEvent::Eof => XmlEventView::Eof,
            RawEvent::Malformed { position, reason } => XmlEventView::Malformed {
                position: *position,
                reason: reason@,
            },
        }
    }
}

/// `Reader::from_reader` over the bytes of a document, with
/// `Config::trim_text(true)`. The reader is about to hand out the events of
/// the document; over a finite document these end, with the end of the
/// document or with the first error.
#[verifier::external_body]
pub(crate) fn open_reader<'a>(document: &'a [u8]) -> (reader: Reader<&'a [u8]>)
    ensures
        pending_events(reader) == document_events(document@),
        complete(pending_events(reader)),
{
    let mut reader = Reader::from_reader(document);
    reader.config_mut().trim_text(true);
    reader
}

/// `Reader::read_event`. The reader hands out the first of its pending
/// events; unless that was the last, the others are left. Text is decoded by
/// `Decoder::decode`, an error is reported with `Reader::buffer_position`
/// and its own message.
#[verifier::external_body]
pub(crate) fn next_event<'a>(reader: &mut Reader<&'a [u8]>) -> (event: RawEvent<'a>)
    requires
        complete(pending_events(*old(reader))),
    ensures
        event@ == pending_events(*old(reader))[0],
        !is_final(event@) ==> pending_events(*final(reader)) == pending_events(
            *old(reader),
        ).drop_first(),
{
    match reader.read_event() {
        Ok(Event::Start(tag)) => RawEvent::Start(tag),
        Ok(Event::Empty(tag)) => RawEvent::Empty(tag),
        Ok(Event::Text(text)) => RawEvent::Text(
            reader.decoder().decode(&text).ok().map(Cow::into_owned),
        ),
        Ok(Event::End(tag)) => RawEvent::End(tag.name().into_inner().to_vec()),
        Ok(Event::Eof) => RawEvent::Eof,
        Ok(_) => RawEvent::Other,
        Err(error) => RawEvent::Malformed {
            position: reader.buffer_position(),
            reason: error.to_string(),
        },
    }
}

/// `BytesStart::name`: the name of the tag.
#[verifier::external_body]
pub(crate) fn tag_name(tag: &BytesStart<'_>) -> (name: Vec<u8>)
    ensures
        name@ == tag_name_bytes(*tag),
{
    tag.name().into_inner().to_vec()
}

/// `BytesStart::attributes` with `Attributes::with_checks(false)`: the
/// iterator is about to hand out the attribute list of the tag, duplicates
/// included.
#[verifier::external_body]
pub(crate) fn open_attributes<'a>(tag: &'a BytesStart<'_>) -> (attributes: Attributes<'a>)
    ensures
        pending_attributes(attributes) == tag_attribute_items(*tag),
{
    let mut attributes = tag.attributes();
    attributes.with_checks(false);
    attributes
}

/// `Attributes::next`: the iterator hands out the first of its pending items
/// and keeps the others, or hands out nothing when none is left. An item that
/// is no well-formed attribute comes as `None`; the value of an attribute is
/// resolved by `Attribute::unescape_value` and is `None` where that fails.
#[verifier::external_body]
pub(crate) fn next_attribute(attributes: &mut Attributes<'_>) -> (item: Option<
    Option<XmlAttribute>,
>)
    ensures
        match item {
            Some(found) => {
                &&& pending_attributes(*old(attributes)).len() > 0
                &&& attribute_item_view(found) == pending_attributes(*old(attributes))[0]
                &&& pending_attributes(*final(attributes)) == pending_attributes(
                    *old(attributes),
                ).drop_first()
            },
            None => pending_attributes(*old(attributes)).len() == 0,
        },
{
    match attributes.next() {
        Some(Ok(a)) => Some(
            Some(
                XmlAttribute {
                    key: a.key.into_inner().to_vec(),
                    value: a.unescape_value().ok().map(Cow::into_owned),
                },
            ),
        ),
        Some(Err(_)) => Some(None),
        None => None,
    }
}

/// The attribute list of a tag as plain values.
pub(crate) fn tag_attributes(tag: &BytesStart<'_>) -> (items: Vec<Option<XmlAttribute>>)
    ensures
        attribute_views(items@) == tag_attribute_items(*tag),
{
    let mut attributes = open_attributes(tag);
    let mut items: Vec<Option<XmlAttribute>> = Vec::new();
    assert(attribute_views(items@) + pending_attributes(attributes) =~= tag_attribute_items(*tag));
    loop
        invariant_except_break
            attribute_views(items@) + pending_attributes(attributes) == tag_attribute_items(*tag),
        ensures
            attribute_views(items@) == tag_attribute_items(*tag),
        decreases pending_attributes(attributes).len(),
    {
        let ghost before = pending_attributes(attributes);
        let ghost collected = attribute_views(items@);
        match next_attribute(&mut attributes) {
            Some(item) => {
                items.push(item);
                assert(attribute_views(items@) =~= collected.push(before[0]));
                assert(collected.push(before[0]) + before.drop_first() =~= collected + before);
            },
            None => {
                assert(collected + before =~= collected);
                break;
            },
        }
    }
    items
}

/// A tag as plain values.
pub(crate) fn plain_tag(tag: &BytesStart<'_>) -> (plain: XmlTag)
    ensures
        plain@ == raw_tag_view(*tag),
{
    XmlTag { name: tag_name(tag), attributes: tag_attributes(tag) }
}

/// An event as plain values.
pub(crate) fn plain_event(event: RawEvent<'_>) -> (plain: XmlEvent)
    ensures
        plain@ == event@,
{
    match event {
        RawEvent::Start(tag) => XmlEvent::Start(plain_tag(&tag)),
        RawEvent::Empty(tag) => XmlEvent::Empty(plain_tag(&tag)),
        RawEvent::Text(text) => XmlEvent::Text(text),
        RawEvent::End(name) => XmlEvent::End(name),
        RawEvent::Other => XmlEvent::Other,
        RawEvent::Eof => XmlEvent::Eof,
        RawEvent::Malformed { position, reason } => XmlEvent::Malformed { position, reason },
    }
}

} // verus!
