//! XML as a sequence of events.

use quick_xml::events::Event::{CData, End, Eof, Start, Text};
use quick_xml::Reader;
use vstd::prelude::*;

verus! {

/// A reader of `quick_xml` over bytes.
#[verifier::external_type_specification]
#[verifier::external_body]
#[verifier::reject_recursive_types(R)]
pub struct ExReader<R>(quick_xml::Reader<R>);

/// The key and the value of an attribute as they stand in the document, or
/// nothing where an attribute is malformed.
pub type XmlAttribute = Option<(Vec<u8>, Vec<u8>)>;

/// What stands at one place of a document.
#[derive(Debug, PartialEq, Eq)]
pub enum XmlEvent {
    /// A start tag with its name and attributes.
    Start(Vec<u8>, Vec<XmlAttribute>),
    /// An end tag with its name.
    End(Vec<u8>),
    /// Text with its entities resolved.
    Text(String),
    /// A section that holds text as it stands.
    CData(Vec<u8>),
    /// Anything else, such as a comment or an empty element.
    Other,
    /// The end of the document.
    Eof,
    /// The document could not be read on from here, and why.
    Failed(String),
}

/// An event with its names and texts as sequences.
pub enum XmlEventView {
    Start(Seq<u8>, Seq<Option<(Seq<u8>, Seq<u8>)>>),
    End(Seq<u8>),
    Text(Seq<char>),
    CData(Seq<u8>),
    Other,
    Eof,
    Failed(Seq<char>),
}

/// The keys and values of attributes as sequences.
pub open spec fn attribute_views(attributes: Seq<XmlAttribute>) -> Seq<
    Option<(Seq<u8>, Seq<u8>)>,
> {
    Seq::new(
        attributes.len(),
        |i: int|
            match attributes[i] {
                Some((key, value)) => Some((key@, value@)),
                None => None,
            },
    )
}

impl View for XmlEvent {
    type V = XmlEventView;

    open spec fn view(&self) -> XmlEventView {
        match self {
            XmlEvent::Start(name, attributes) => XmlEventView::Start(
                name@,
                attribute_views(attributes@),
            ),
            XmlEvent::End(name) => XmlEventView::End(name@),
            XmlEvent::Text(text) => XmlEventView::Text(text@),
            XmlEvent::CData(bytes) => XmlEventView::CData(bytes@),
            XmlEvent::Other => XmlEventView::Other,
            XmlEvent::Eof => XmlEventView::Eof,
            XmlEvent::Failed(error) => XmlEventView::Failed(error@),
        }
    }
}

impl XmlEventView {
    /// Whether nothing follows the event.
    pub open spec fn is_last(self) -> bool {
        self is Eof || self is Failed
    }
}

/// Whether a sequence of events ends, and where it ends for the first time.
pub open spec fn complete(events: Seq<XmlEventView>) -> bool {
    &&& events.len() > 0
    &&& events.last().is_last()
    &&& forall|i: int| 0 <= i < events.len() - 1 ==> !(#[trigger] events[i]).is_last()
}

/// The byte that opens a tag.
pub const OPENING: u8 = 0x3c;

/// The byte that closes a tag.
pub const CLOSING: u8 = 0x3e;

/// How many bytes of a document open a tag.
pub open spec fn openings(xml: Seq<u8>) -> nat
    decreases xml.len(),
{
    if xml.len() == 0 {
        0
    } else {
        openings(xml.drop_first()) + if xml[0] == OPENING {
            1nat
        } else {
            0
        }
    }
}

/// Whether a document type starts at a place of a document.
pub open spec fn starts_document_type(xml: Seq<u8>, at: int) -> bool {
    &&& at + 2 < xml.len()
    &&& xml[at] == OPENING
    &&& xml[at + 1] == 0x21
    &&& xml[at + 2] == 0x44 || xml[at + 2] == 0x64
}

/// Whether 32 bits count the tags that are open at once, from a number of open tags
/// on and up to the byte that closes the document type.
pub open spec fn nests_in_range(rest: Seq<u8>, open: int) -> bool
    decreases rest.len(),
{
    if rest.len() == 0 {
        true
    } else if rest[0] == OPENING {
        open < i32::MAX && nests_in_range(rest.drop_first(), open + 1)
    } else if rest[0] == CLOSING {
        open == 0 || nests_in_range(rest.drop_first(), open - 1)
    } else {
        nests_in_range(rest.drop_first(), open)
    }
}

/// Whether 32 bits count the tags that are open at once in a document type of a
/// document, as the reader of `quick_xml` does.
pub open spec fn countable(xml: Seq<u8>) -> bool {
    forall|at: int|
        0 <= at && #[trigger] starts_document_type(xml, at) ==> nests_in_range(
            xml.skip(at + 2),
            0,
        )
}

/// Tags that can be counted in all can be counted while they are open.
proof fn lemma_few_openings(rest: Seq<u8>, open: int)
    requires
        0 <= open,
        open + openings(rest) <= i32::MAX,
    ensures
        nests_in_range(rest, open),
    decreases rest.len(),
{
    if rest.len() > 0 {
        let further = if rest[0] == OPENING {
            open + 1
        } else if rest[0] == CLOSING && open > 0 {
            open - 1
        } else {
            open
        };
        lemma_few_openings(rest.drop_first(), further);
    }
}

/// The rest of a document opens no more tags than the document.
proof fn lemma_openings_of_rest(xml: Seq<u8>, at: int)
    requires
        0 <= at <= xml.len(),
    ensures
        openings(xml.skip(at)) <= openings(xml),
    decreases at,
{
    if at > 0 {
        lemma_openings_of_rest(xml.drop_first(), at - 1);
        assert(xml.drop_first().skip(at - 1) =~= xml.skip(at));
    } else {
        assert(xml.skip(0) =~= xml);
    }
}

/// Whether 32 bits count the tags that a document opens.
fn has_few_openings(xml: &[u8]) -> (result: bool)
    ensures
        result == (openings(xml@) <= i32::MAX),
{
    let mut count: usize = 0;
    let mut at: usize = 0;
    assert(xml@.skip(0) =~= xml@);
    while at < xml.len()
        invariant
            count <= at <= xml@.len(),
            count + openings(xml@.skip(at as int)) == openings(xml@),
        decreases xml@.len() - at,
    {
        assert(xml@.skip(at as int).drop_first() =~= xml@.skip(at + 1));
        if xml[at] == OPENING {
            count = count + 1;
        }
        at = at + 1;
    }
    count <= 0x7fff_ffff
}

/// Whether 32 bits count the tags that are open at once from a place of a document
/// up to the byte that closes the document type.
fn is_nested_in_range(xml: &[u8], start: usize) -> (result: bool)
    requires
        start <= xml@.len(),
    ensures
        result == nests_in_range(xml@.skip(start as int), 0),
{
    let mut open: u32 = 0;
    let mut at: usize = start;
    while at < xml.len()
        invariant
            start <= at <= xml@.len(),
            open <= i32::MAX,
            nests_in_range(xml@.skip(start as int), 0) == nests_in_range(
                xml@.skip(at as int),
                open as int,
            ),
        decreases xml@.len() - at,
    {
        assert(xml@.skip(at as int).drop_first() =~= xml@.skip(at + 1));
        if xml[at] == OPENING {
            if open == 0x7fff_ffff {
                return false;
            }
            open = open + 1;
        } else if xml[at] == CLOSING {
            if open == 0 {
                return true;
            }
            open = open - 1;
        }
        at = at + 1;
    }
    true
}

/// Whether 32 bits count the tags that are open at once in a document type of a
/// document.
pub fn is_countable(xml: &[u8]) -> (result: bool)
    ensures
        result == countable(xml@),
{
    if has_few_openings(xml) {
        assert forall|at: int|
            0 <= at && #[trigger] starts_document_type(xml@, at) implies nests_in_range(
            xml@.skip(at + 2),
            0,
        ) by {
            lemma_openings_of_rest(xml@, at + 2);
            lemma_few_openings(xml@.skip(at + 2), 0);
        }
        return true;
    }
    let mut at: usize = 0;
    while at < xml.len()
        invariant
            at <= xml@.len(),
            forall|i: int|
                0 <= i < at && #[trigger] starts_document_type(xml@, i) ==> nests_in_range(
                    xml@.skip(i + 2),
                    0,
                ),
        decreases xml@.len() - at,
    {
        if xml.len() - at > 2 && xml[at] == OPENING && xml[at + 1] == 0x21 && (xml[at + 2] == 0x44
            || xml[at + 2] == 0x64) {
            assert(starts_document_type(xml@, at as int));
            if !is_nested_in_range(xml, at + 2) {
                return false;
            }
        }
        at = at + 1;
    }
    true
}

/// What the reader of `quick_xml` hands out of a document, up to the end of the
/// document or the first error.
pub uninterp spec fn xml_events(xml: Seq<u8>) -> Seq<XmlEventView>;

/// What a reader hands out from here on, up to the end of the document or the
/// first error.
pub uninterp spec fn events_left(reader: quick_xml::Reader<&[u8]>) -> Seq<XmlEventView>;

/// Makes a reader with `Reader::from_reader` and has it trim text. It will
/// hand out the events of the document, which come to an end. It counts the tags
/// that are open in a document type with 32 bits, and panics where they do not do.
#[verifier::external_body]
pub(crate) fn open_reader(xml: &[u8]) -> (reader: Reader<&[u8]>)
    requires
        countable(xml@),
    ensures
        events_left(reader) == xml_events(xml@),
        complete(events_left(reader)),
{
    let mut reader = Reader::from_reader(xml);
    reader.config_mut().trim_text(true);
    reader
}

/// Reads an event with `Reader::read_event_into`: the next of those that the
/// reader hands out. Attributes come from `BytesStart::attributes`, and text from
/// `BytesText::unescape`, whose error is the document's. Nothing is said of a
/// reader behind the end or an error.
#[verifier::external_body]
pub(crate) fn next_event(reader: &mut Reader<&[u8]>) -> (event: XmlEvent)
    requires
        events_left(*old(reader)).len() > 0,
    ensures
        event@ == events_left(*old(reader))[0],
        !event@.is_last() ==> events_left(*final(reader)) == events_left(*old(reader)).skip(1),
{
    let mut read = || Ok::<XmlEvent, quick_xml::Error>(
        match reader.read_event_into(&mut Vec::new())? {
            Start(tag) => XmlEvent::Start(
                tag.name().0.to_vec(),
                tag.attributes().map(|a| a.ok().map(|a| (a.key.0.to_vec(), a.value.to_vec()))).collect(),
            ),
            End(tag) => XmlEvent::End(tag.name().0.to_vec()),
            Text(text) => XmlEvent::Text(text.unescape()?.into_owned()),
            CData(bytes) => XmlEvent::CData(bytes.to_vec()),
            Eof => XmlEvent::Eof,
            _ => XmlEvent::Other,
        },
    );
    read().unwrap_or_else(|error| XmlEvent::Failed(error.to_string()))
}

} // verus!
