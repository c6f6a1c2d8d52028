//! The error taxonomy: malformed documents, absent names, failed reads and
//! structurally incomplete skins.

use crate::controller::pressed::Pressed;
use vstd::prelude::*;

verus! {

/// A malformed declarative source. Unrecoverable for that document: the
/// caller must not proceed with a partially built table.
#[derive(Debug, Clone, Copy, PartialEq, Eq, Structural)]
pub enum ParseError {
    /// The document itself cannot be read.
    Document,
    /// An address is not a bare hexadecimal numeral of at most 24 bits.
    HexNumeral,
    /// A coordinate is not a decimal integer numeral.
    Numeral,
}

/// A failure to build the controller address book.
#[derive(Debug, Clone, Copy, PartialEq, Eq, Structural)]
pub enum BookError {
    /// The layout document is malformed.
    Parse(ParseError),
    /// The configured starting layout name is absent from the parsed set.
    LayoutNotFound,
}

/// A failed read from the remote memory source. Recovered by the polling
/// loop, never fatal.
#[derive(Debug, Clone, Copy, PartialEq, Eq, Structural)]
pub enum TransportError {
    /// The transport handed back fewer bytes than the read window spans.
    ShortRead,
}

/// A structurally invalid skin load. Fatal for that skin: nothing is
/// silently substituted.
#[derive(Debug, Clone, PartialEq, Eq)]
pub enum SkinError {
    /// The skin document is malformed.
    Parse(ParseError),
    /// A declared element lacks a required attribute.
    MissingAttribute,
    /// A button element's name is outside the fixed twelve-name vocabulary.
    UnknownButton(String),
    /// The named button has no declaration in the document.
    MissingButton(Pressed),
    /// The document declares no background at all.
    NoBackground,
    /// The configured background name matches no declared background.
    BackgroundNotFound,
    /// The current skin or background is absent from its catalog.
    NotFound,
}

} // verus!
