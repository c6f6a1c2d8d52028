//! Reading the controller-layout document: a JSON object mapping each layout
//! name to its pair of hexadecimal register addresses.
//!
//! The document is parsed by serde_json behind trusted declarations; every
//! rule about its shape — the `layouts` member, the two address fields, the
//! 24-bit hexadecimal numerals — is enforced by verified code over the plain
//! values handed out.

use crate::controller::controller_addresses::ControllerAddresses;
use crate::controller::controller_impl::{distinct_keys, ControllerLayouts};
use crate::errors::{BookError, ParseError};
use vstd::prelude::*;

verus! {

#[verifier::external_type_specification]
#[verifier::external_body]
pub struct ExJsonValue(serde_json::Value);

/// Relies on serde_json::from_str: parses the text into a JSON value, or
/// nothing when the text is not well-formed JSON.
#[verifier::external_body]
fn json_from_str(s: &str) -> (r: Option<serde_json::Value>) {
    serde_json::from_str(s).ok()
}

/// Relies on serde_json's Value::get: the value of the named member, when
/// this value is an object that has one.
#[verifier::external_body]
fn json_get<'a>(v: &'a serde_json::Value, key: &str) -> (r: Option<&'a serde_json::Value>) {
    v.get(key)
}

/// Relies on serde_json's Value::as_str: the contents of a JSON string
/// value, and nothing for every other kind of value.
#[verifier::external_body]
fn json_as_str(v: &serde_json::Value) -> (r: Option<String>) {
    v.as_str().map(|s| s.to_string())
}

/// Relies on serde_json's Value::as_object and on Map iteration: the members
/// of a JSON object. A JSON object maps each key to one value, so the keys
/// handed out are pairwise distinct.
#[verifier::external_body]
fn json_object_entries(v: &serde_json::Value) -> (r: Option<Vec<(String, serde_json::Value)>>)
    ensures
        match r {
            Some(entries) => forall|i: int, j: int|
                0 <= i < j < entries@.len() ==> (#[trigger] entries@[i]).0@ != (
                #[trigger] entries@[j]).0@,
            None => true,
        },
{
    v.as_object().map(|m| m.iter().map(|(k, val)| (k.clone(), val.clone())).collect())
}

/// Reads one layout's member: an object whose `address_low` and
/// `address_high` members hold bare 24-bit hexadecimal numerals.
fn addresses_from_value(v: &serde_json::Value) -> (r: Result<ControllerAddresses, BookError>)
    ensures
        match r {
            Ok(a) => a.wf(),
            Err(e) => e is Parse,
        },
{
    let low = match json_get(v, "address_low") {
        Some(x) => x,
        None => {
            return Err(BookError::Parse(ParseError::Document));
        },
    };
    let high = match json_get(v, "address_high") {
        Some(x) => x,
        None => {
            return Err(BookError::Parse(ParseError::Document));
        },
    };
    let low_text = match json_as_str(low) {
        Some(t) => t,
        None => {
            return Err(BookError::Parse(ParseError::Document));
        },
    };
    let high_text = match json_as_str(high) {
        Some(t) => t,
        None => {
            return Err(BookError::Parse(ParseError::Document));
        },
    };
    match ControllerAddresses::from_hex(low_text.as_str(), high_text.as_str()) {
        Ok(a) => Ok(a),
        Err(e) => Err(BookError::Parse(e)),
    }
}

/// Parses the whole layout document: a JSON object whose `layouts` member
/// maps each layout name to its address pair. Whatever the parser hands
/// back, the set that comes out has pairwise distinct names and 24-bit
/// addresses; every malformation is reported as a parse error.
pub fn parse_layouts(document: &str) -> (r: Result<ControllerLayouts, BookError>)
    ensures
        match r {
            Ok(book) => distinct_keys(book.layouts@) && forall|i: int|
                0 <= i < book.layouts@.len() ==> (#[trigger] book.layouts@[i]).1.wf(),
            Err(e) => e is Parse,
        },
{
    let root = match json_from_str(document) {
        Some(v) => v,
        None => {
            return Err(BookError::Parse(ParseError::Document));
        },
    };
    let layouts_value = match json_get(&root, "layouts") {
        Some(v) => v,
        None => {
            return Err(BookError::Parse(ParseError::Document));
        },
    };
    let entries = match json_object_entries(layouts_value) {
        Some(e) => e,
        None => {
            return Err(BookError::Parse(ParseError::Document));
        },
    };
    let mut layouts: Vec<(String, ControllerAddresses)> = Vec::new();
    let mut i: usize = 0;
    while i < entries.len()
        invariant
            i <= entries@.len(),
            layouts@.len() == i,
            forall|k: int|
                0 <= k < i ==> (#[trigger] layouts@[k]).0@ == entries@[k].0@ && layouts@[k].1.wf(),
            forall|a: int, b: int|
                0 <= a < b < entries@.len() ==> (#[trigger] entries@[a]).0@ != (
                #[trigger] entries@[b]).0@,
        decreases entries@.len() - i,
    {
        let name = entries[i].0.clone();
        let addresses = addresses_from_value(&entries[i].1)?;
        layouts.push((name, addresses));
        i += 1;
    }
    Ok(ControllerLayouts { layouts })
}

} // verus!
