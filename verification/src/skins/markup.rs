//! Reading a skin's declarative markup document.
//!
//! The tag stream is produced by quick_xml behind trusted declarations; it is
//! reduced at once to a list of plain elements (tag kind, name, attributes),
//! and every rule about the document's meaning is enforced by verified code
//! over that list.

use crate::errors::ParseError;
use crate::textparse::str_eq_str;
use vstd::prelude::*;

verus! {

#[verifier::external_type_specification]
#[verifier::external_body]
#[verifier::reject_recursive_types(R)]
pub struct ExXmlReader<R>(quick_xml::Reader<R>);

#[verifier::external_type_specification]
#[verifier::external_body]
pub struct ExBytesStart<'a>(quick_xml::events::BytesStart<'a>);

/// One markup event, reduced to the kinds this engine distinguishes.
enum RawEvent<'a> {
    /// A self-closing element tag.
    Empty(quick_xml::events::BytesStart<'a>),
    /// An opening element tag.
    Open(quick_xml::events::BytesStart<'a>),
    /// The end of the document.
    Eof,
    /// A malformed construct: reading cannot continue.
    Fault,
    /// Any other well-formed event, passed over by this engine.
    Other,
}

/// Relies on quick_xml's Reader::from_str: a streaming reader over the text.
#[verifier::external_body]
fn reader_from_str<'a>(s: &'a str) -> (r: quick_xml::Reader<&'a [u8]>) {
    quick_xml::Reader::from_str(s)
}

/// Relies on quick_xml's Reader::read_event: the next event of the
/// document, told apart by kind with its tag moved out.
#[verifier::external_body]
fn read_raw_event<'a>(r: &mut quick_xml::Reader<&'a [u8]>) -> (ev: RawEvent<'a>) {
    match r.read_event() {
        Ok(quick_xml::events::Event::Empty(t)) => RawEvent::Empty(t),
        Ok(quick_xml::events::Event::Start(t)) => RawEvent::Open(t),
        Ok(quick_xml::events::Event::Eof) => RawEvent::Eof,
        Ok(_) => RawEvent::Other,
        Err(_) => RawEvent::Fault,
    }
}

/// Relies on BytesStart::name: the element's raw tag name.
#[verifier::external_body]
fn element_name(t: &quick_xml::events::BytesStart) -> (name: String) {
    t.name().into_inner().to_string()
}

/// Relies on BytesStart::attributes and Attribute::normalized_value: each
/// attribute's local name and normalized (unescaped) value in document
/// order, or nothing when an attribute is malformed.
#[verifier::external_body]
fn element_attributes(t: &quick_xml::events::BytesStart) -> (attrs: Option<Vec<(String, String)>>) {
    let mut out: Vec<(String, String)> = Vec::new();
    for attr in t.attributes().with_checks(false) {
        let attr = match attr {
            Ok(a) => a,
            Err(_) => return None,
        };
        let key = attr.key.local_name().into_inner().to_string();
        let value = match attr.normalized_value(quick_xml::XmlVersion::Implicit1_0) {
            Ok(v) => v.into_owned(),
            Err(_) => return None,
        };
        out.push((key, value));
    }
    Some(out)
}

/// How an element was written.
#[derive(Debug, PartialEq, Eq, Structural, Clone, Copy)]
pub enum ElementKind {
    /// An opening tag.
    Open,
    /// A self-closing tag.
    SelfClosed,
}

/// One declared element, as plain values: its tag kind, its name and its
/// attributes in document order.
#[derive(Debug, Clone)]
pub struct RawElement {
    pub kind: ElementKind,
    pub name: String,
    pub attrs: Vec<(String, String)>,
}

/// Streams the whole document into its element list: every opening or
/// self-closing tag with its attributes, in document order. A malformed
/// document or attribute yields a parse error, never a partial list.
pub fn parse_elements(doc: &str) -> (r: Result<Vec<RawElement>, ParseError>) {
    let mut reader = reader_from_str(doc);
    let mut out: Vec<RawElement> = Vec::new();
    // Every tag takes at least one byte of the document, so a well-formed
    // stream ends well within this many events; one that does not is
    // malformed.
    let byte_len = doc.len();
    let mut fuel: usize = if byte_len < usize::MAX {
        byte_len + 1
    } else {
        byte_len
    };
    while fuel > 0
        decreases fuel,
    {
        fuel = fuel - 1;
        let ev = read_raw_event(&mut reader);
        match ev {
            RawEvent::Empty(t) => {
                let name = element_name(&t);
                match element_attributes(&t) {
                    Some(attrs) => {
                        out.push(RawElement { kind: ElementKind::SelfClosed, name, attrs });
                    },
                    None => {
                        return Err(ParseError::Document);
                    },
                }
            },
            RawEvent::Open(t) => {
                let name = element_name(&t);
                match element_attributes(&t) {
                    Some(attrs) => {
                        out.push(RawElement { kind: ElementKind::Open, name, attrs });
                    },
                    None => {
                        return Err(ParseError::Document);
                    },
                }
            },
            RawEvent::Eof => {
                return Ok(out);
            },
            RawEvent::Fault => {
                return Err(ParseError::Document);
            },
            RawEvent::Other => {},
        }
    }
    Err(ParseError::Document)
}

/// The value of the attribute named `key`: of duplicate declarations, the
/// last one counts, as map insertion kept it.
pub open spec fn attr_value(attrs: Seq<(String, String)>, key: Seq<char>) -> Option<Seq<char>>
    decreases attrs.len(),
{
    if attrs.len() == 0 {
        None
    } else if attrs.last().0@ == key {
        Some(attrs.last().1@)
    } else {
        attr_value(attrs.drop_last(), key)
    }
}

/// Finds the attribute named `key`; of duplicates, the last declaration
/// wins.
pub fn find_attr<'a>(attrs: &'a Vec<(String, String)>, key: &str) -> (r: Option<&'a String>)
    ensures
        match r {
            Some(v) => attr_value(attrs@, key@) == Some(v@),
            None => attr_value(attrs@, key@) is None,
        },
{
    let mut i: usize = attrs.len();
    proof {
        assert(attrs@.take(attrs@.len() as int) =~= attrs@);
    }
    while i > 0
        invariant
            i <= attrs@.len(),
            attr_value(attrs@, key@) == attr_value(attrs@.take(i as int), key@),
        decreases i,
    {
        i = i - 1;
        let hit = str_eq_str(attrs[i].0.as_str(), key);
        proof {
            let pre = attrs@.take(i as int + 1);
            assert(pre.drop_last() =~= attrs@.take(i as int));
            assert(pre.last() == attrs@[i as int]);
        }
        if hit {
            return Some(&attrs[i].1);
        }
    }
    None
}

} // verus!
