//! Reading an XML document event by event with the `quick_xml` pull reader,
//! and turning the raw bytes of names and values into text.
use vstd::prelude::*;

use quick_xml::events::Event::{CData, Empty, End, Eof, Start, Text};
use vstd::utf8::{decode_utf8, valid_utf8};

verus! {

/// The XML pull reader of the `quick_xml` crate.
#[verifier::external_type_specification]
#[verifier::external_body]
#[verifier::reject_recursive_types(R)]
pub struct ExXmlReader<R>(quick_xml::Reader<R>);

/// One event that the reader hands out, as raw bytes.
pub enum XmlRead {
    /// A start tag (`false`) or a self-closing tag (`true`): its qualified
    /// name and its well-formed attributes (qualified key, raw value).
    Element(bool, Vec<u8>, Vec<(Vec<u8>, Vec<u8>)>),
    /// Character data with its escapes resolved; `None` where they do not resolve.
    Text(Option<String>),
    /// The raw content of a CDATA section.
    CData(Vec<u8>),
    /// An end tag with its qualified name.
    End(Vec<u8>),
    /// The end of the document.
    Eof,
    /// A syntax error.
    Error,
    /// A declaration, comment, processing instruction or doctype.
    Other,
}

/// The mathematical value of a read event.
pub enum XmlReadModel {
    Element(bool, Seq<u8>, Seq<(Seq<u8>, Seq<u8>)>),
    Text(Option<Seq<char>>),
    CData(Seq<u8>),
    End(Seq<u8>),
    Eof,
    Error,
    Other,
}

/// The byte values of raw attributes.
pub open spec fn raw_attributes_view(attrs: Seq<(Vec<u8>, Vec<u8>)>) -> Seq<(Seq<u8>, Seq<u8>)> {
    attrs.map_values(|a: (Vec<u8>, Vec<u8>)| (a.0@, a.1@))
}

impl View for XmlRead {
    type V = XmlReadModel;

    open spec fn view(&self) -> XmlReadModel {
        match self {
            XmlRead::Element(empty, name, attrs) => XmlReadModel::Element(
                *empty,
                name@,
                raw_attributes_view(attrs@),
            ),
            XmlRead::Text(t) => XmlReadModel::Text(
                match t {
                    Some(s) => Some(s@),
                    None => None,
                },
            ),
            XmlRead::CData(b) => XmlReadModel::CData(b@),
            XmlRead::End(n) => XmlReadModel::End(n@),
            XmlRead::Eof => XmlReadModel::Eof,
            XmlRead::Error => XmlReadModel::Error,
            XmlRead::Other => XmlReadModel::Other,
        }
    }
}

/// The document that a reader reads.
pub uninterp spec fn xml_reader_text(reader: quick_xml::Reader<&[u8]>) -> Seq<char>;

/// How many events a reader has handed out.
pub uninterp spec fn xml_reader_position(reader: quick_xml::Reader<&[u8]>) -> nat;

/// The event that a reader with the default configuration hands out as its
/// `k`-th (counting from 0) on the document `text`.
pub uninterp spec fn xml_read_at(text: Seq<char>, k: nat) -> XmlReadModel;

/// `quick_xml::Reader::from_str`: a reader at the start of `input`, with the
/// default configuration (text is not trimmed, end names are checked).
#[verifier::external_body]
pub(crate) fn xml_reader<'a>(input: &'a str) -> (r: quick_xml::Reader<&'a [u8]>)
    ensures
        xml_reader_text(r) == input@,
        xml_reader_position(r) == 0,
{
    quick_xml::Reader::from_str(input)
}

/// `quick_xml::Reader::read_event`: the next event of the document. The
/// event is a function of the document and of how many events came before
/// it; the reader moves one event on. Element names, attribute keys and
/// values and CDATA are handed over as raw bytes, text unescaped.
#[verifier::external_body]
pub(crate) fn xml_read_event(reader: &mut quick_xml::Reader<&[u8]>) -> (r: XmlRead)
    ensures
        r@ == xml_read_at(xml_reader_text(*old(reader)), xml_reader_position(*old(reader))),
        xml_reader_text(*final(reader)) == xml_reader_text(*old(reader)),
        xml_reader_position(*final(reader)) == xml_reader_position(*old(reader)) + 1,
{
    let event = reader.read_event();
    let empty = matches!(event, Ok(Empty(_)));
    match event {
        Ok(Start(e) | Empty(e)) => XmlRead::Element(empty, e.name().0.to_vec(),
            e.attributes().flatten().map(|a| (a.key.0.to_vec(), a.value.to_vec())).collect()),
        Ok(Text(t)) => XmlRead::Text(t.unescape().ok().map(Into::into)),
        Ok(CData(t)) => XmlRead::CData(t.to_vec()),
        Ok(End(e)) => XmlRead::End(e.to_vec()),
        Ok(Eof) => XmlRead::Eof,
        Err(_) => XmlRead::Error,
        Ok(_) => XmlRead::Other,
    }
}

/// `std::str::from_utf8`: the text that the bytes encode, where they are
/// valid UTF-8.
#[verifier::external_body]
fn utf8_text(bytes: &[u8]) -> (r: Option<String>)
    ensures
        r is Some <==> valid_utf8(bytes@),
        r matches Some(s) ==> s@ == decode_utf8(bytes@),
{
    std::str::from_utf8(bytes).ok().map(str::to_owned)
}

/// What `String::from_utf8_lossy` makes of some bytes: their text, with
/// each invalid sequence replaced by U+FFFD.
pub uninterp spec fn utf8_lossy(bytes: Seq<u8>) -> Seq<char>;

/// `String::from_utf8_lossy`: the text of the bytes, invalid sequences
/// replaced; valid UTF-8 decodes as it is.
#[verifier::external_body]
pub(crate) fn lossy_text(bytes: &[u8]) -> (r: String)
    ensures
        r@ == utf8_lossy(bytes@),
        valid_utf8(bytes@) ==> r@ == decode_utf8(bytes@),
{
    String::from_utf8_lossy(bytes).into_owned()
}

/// The text of some bytes, empty where they are no valid UTF-8.
pub open spec fn utf8_or_empty(bytes: Seq<u8>) -> Seq<char> {
    if valid_utf8(bytes) {
        decode_utf8(bytes)
    } else {
        Seq::empty()
    }
}

/// The text of some bytes, empty where they are no valid UTF-8.
pub fn text_or_empty(bytes: &Vec<u8>) -> (r: String)
    ensures
        r@ == utf8_or_empty(bytes@),
{
    match utf8_text(bytes.as_slice()) {
        Some(s) => s,
        None => String::new(),
    }
}

} // verus!
