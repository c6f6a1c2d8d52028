//! One button overlay of a skin.

use crate::controller::pressed::Pressed;
use crate::errors::{ParseError, SkinError};
use crate::skins::markup::attr_value;
use crate::textparse::{
    coord_value_of, parse_coord, str_eq_str, valid_coord_numeral,
};
use vstd::prelude::*;

verus! {

/// A button overlay: the button it depicts, its image reference, and its
/// declared position in background-image coordinates. The image's natural
/// size belongs to the renderer.
#[derive(Debug, Clone)]
pub struct Button {
    pub name: Pressed,
    pub image: String,
    pub x: i32,
    pub y: i32,
}

/// The fixed, case-sensitive vocabulary of button names: each of the twelve
/// lowercase names resolves to its button, and nothing else resolves.
pub open spec fn button_of_name(s: Seq<char>) -> Option<Pressed> {
    if s == "a"@ {
        Some(Pressed::A)
    } else if s == "b"@ {
        Some(Pressed::B)
    } else if s == "x"@ {
        Some(Pressed::X)
    } else if s == "y"@ {
        Some(Pressed::Y)
    } else if s == "select"@ {
        Some(Pressed::Select)
    } else if s == "start"@ {
        Some(Pressed::Start)
    } else if s == "l"@ {
        Some(Pressed::L)
    } else if s == "r"@ {
        Some(Pressed::R)
    } else if s == "up"@ {
        Some(Pressed::Up)
    } else if s == "down"@ {
        Some(Pressed::Down)
    } else if s == "left"@ {
        Some(Pressed::Left)
    } else if s == "right"@ {
        Some(Pressed::Right)
    } else {
        None
    }
}

/// Resolves a declared button name through the fixed vocabulary.
pub fn pressed_from_name(s: &str) -> (r: Option<Pressed>)
    ensures
        r == button_of_name(s@),
{
    if str_eq_str(s, "a") {
        Some(Pressed::A)
    } else if str_eq_str(s, "b") {
        Some(Pressed::B)
    } else if str_eq_str(s, "x") {
        Some(Pressed::X)
    } else if str_eq_str(s, "y") {
        Some(Pressed::Y)
    } else if str_eq_str(s, "select") {
        Some(Pressed::Select)
    } else if str_eq_str(s, "start") {
        Some(Pressed::Start)
    } else if str_eq_str(s, "l") {
        Some(Pressed::L)
    } else if str_eq_str(s, "r") {
        Some(Pressed::R)
    } else if str_eq_str(s, "up") {
        Some(Pressed::Up)
    } else if str_eq_str(s, "down") {
        Some(Pressed::Down)
    } else if str_eq_str(s, "left") {
        Some(Pressed::Left)
    } else if str_eq_str(s, "right") {
        Some(Pressed::Right)
    } else {
        None
    }
}

/// Whether a `button` element declares all four required attributes.
pub open spec fn button_attrs_complete(attrs: Seq<(String, String)>) -> bool {
    &&& attr_value(attrs, "name"@) is Some
    &&& attr_value(attrs, "image"@) is Some
    &&& attr_value(attrs, "x"@) is Some
    &&& attr_value(attrs, "y"@) is Some
}

/// Whether the declared name is in the twelve-name vocabulary.
pub open spec fn button_name_known(attrs: Seq<(String, String)>) -> bool {
    button_of_name(attr_value(attrs, "name"@).unwrap()) is Some
}

/// Whether both declared coordinates are decimal integer numerals.
pub open spec fn button_coords_valid(attrs: Seq<(String, String)>) -> bool {
    valid_coord_numeral(attr_value(attrs, "x"@).unwrap()) && valid_coord_numeral(
        attr_value(attrs, "y"@).unwrap(),
    )
}

/// Whether a `button` element's attributes form a valid overlay.
pub open spec fn button_attrs_valid(attrs: Seq<(String, String)>) -> bool {
    button_attrs_complete(attrs) && button_name_known(attrs) && button_coords_valid(attrs)
}

/// The button a valid element depicts.
pub open spec fn spec_button_pressed(attrs: Seq<(String, String)>) -> Pressed {
    button_of_name(attr_value(attrs, "name"@).unwrap()).unwrap()
}

/// The image reference of a valid element.
pub open spec fn spec_button_image(attrs: Seq<(String, String)>) -> Seq<char> {
    attr_value(attrs, "image"@).unwrap()
}

/// The horizontal position of a valid element.
pub open spec fn spec_button_x(attrs: Seq<(String, String)>) -> int {
    coord_value_of(attr_value(attrs, "x"@).unwrap())
}

/// The vertical position of a valid element.
pub open spec fn spec_button_y(attrs: Seq<(String, String)>) -> int {
    coord_value_of(attr_value(attrs, "y"@).unwrap())
}

impl Button {
    /// Builds a button overlay from a `button` element's attributes: the
    /// name resolved through the fixed vocabulary, the image reference, and
    /// the two integer coordinates. A missing attribute, a name outside the
    /// vocabulary, or a malformed coordinate is reported, never guessed
    /// around.
    pub fn new(attrs: &Vec<(String, String)>) -> (r: Result<Button, SkinError>)
        ensures
            match r {
                Ok(b) => button_attrs_valid(attrs@) && b.name == spec_button_pressed(attrs@)
                    && b.image@ == spec_button_image(attrs@) && b.x == spec_button_x(attrs@) && b.y
                    == spec_button_y(attrs@),
                Err(e) => !button_attrs_valid(attrs@) && match e {
                    SkinError::MissingAttribute => !button_attrs_complete(attrs@),
                    SkinError::UnknownButton(n) => button_attrs_complete(attrs@)
                        && !button_name_known(attrs@) && n@ == attr_value(attrs@, "name"@).unwrap(),
                    SkinError::Parse(pe) => button_attrs_complete(attrs@) && button_name_known(
                        attrs@,
                    ) && !button_coords_valid(attrs@) && pe == ParseError::Numeral,
                    _ => false,
                },
            },
    {
        let name_attr = match crate::skins::markup::find_attr(attrs, "name") {
            Some(v) => v,
            None => {
                return Err(SkinError::MissingAttribute);
            },
        };
        let image_attr = match crate::skins::markup::find_attr(attrs, "image") {
            Some(v) => v,
            None => {
                return Err(SkinError::MissingAttribute);
            },
        };
        let x_attr = match crate::skins::markup::find_attr(attrs, "x") {
            Some(v) => v,
            None => {
                return Err(SkinError::MissingAttribute);
            },
        };
        let y_attr = match crate::skins::markup::find_attr(attrs, "y") {
            Some(v) => v,
            None => {
                return Err(SkinError::MissingAttribute);
            },
        };
        let name = match pressed_from_name(name_attr.as_str()) {
            Some(p) => p,
            None => {
                return Err(SkinError::UnknownButton(name_attr.clone()));
            },
        };
        let x = match parse_coord(x_attr.as_str()) {
            Some(v) => v,
            None => {
                return Err(SkinError::Parse(ParseError::Numeral));
            },
        };
        let y = match parse_coord(y_attr.as_str()) {
            Some(v) => v,
            None => {
                return Err(SkinError::Parse(ParseError::Numeral));
            },
        };
        Ok(Button { name, image: image_attr.clone(), x, y })
    }
}

} // verus!
