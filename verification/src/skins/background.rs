//! One selectable backdrop of a skin.

use crate::errors::SkinError;
use crate::skins::markup::attr_value;
use crate::textparse::{lower_of, lowercase};
use vstd::prelude::*;

verus! {

/// A backdrop: its declared name, lowercased to serve as a stable key, and
/// its image reference as declared. Opening the image and measuring it
/// belongs to the renderer.
#[derive(Debug, Clone)]
pub struct Background {
    pub name: String,
    pub image: String,
}

/// Whether a `background` element's attributes form a valid backdrop: both
/// the name and the image reference are declared.
pub open spec fn bg_attrs_valid(attrs: Seq<(String, String)>) -> bool {
    attr_value(attrs, "name"@) is Some && attr_value(attrs, "image"@) is Some
}

/// The backdrop's key: its declared name, lowercased.
pub open spec fn spec_bg_name(attrs: Seq<(String, String)>) -> Seq<char> {
    lower_of(attr_value(attrs, "name"@).unwrap())
}

/// The backdrop's image reference, as declared.
pub open spec fn spec_bg_image(attrs: Seq<(String, String)>) -> Seq<char> {
    attr_value(attrs, "image"@).unwrap()
}

impl Background {
    /// Builds a backdrop descriptor from a `background` element's
    /// attributes. An element missing its name or its image reference is
    /// structurally invalid.
    pub fn new(attrs: &Vec<(String, String)>) -> (r: Result<Background, SkinError>)
        ensures
            match r {
                Ok(b) => bg_attrs_valid(attrs@) && b.name@ == spec_bg_name(attrs@) && b.image@
                    == spec_bg_image(attrs@),
                Err(e) => !bg_attrs_valid(attrs@) && e == SkinError::MissingAttribute,
            },
    {
        let name_attr = match crate::skins::markup::find_attr(attrs, "name") {
            Some(v) => v,
            None => {
                return Err(SkinError::MissingAttribute);
            },
        };
        let image_attr = match crate::skins::markup::find_attr(attrs, "image") {
            Some(v) => v,
            None => {
                return Err(SkinError::MissingAttribute);
            },
        };
        let image = image_attr.clone();
        Ok(Background { name: lowercase(name_attr.as_str()), image })
    }
}

} // verus!
