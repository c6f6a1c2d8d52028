use snes_input_display::configuration::SkinConfig;
use snes_input_display::controller::pressed::Pressed;
use snes_input_display::errors::{ParseError, SkinError};
use snes_input_display::skins::buttons_map_to_array_generic;
use snes_input_display::skins::skin::Skin;

#[test]
fn buttons_map_to_array_missing_returns_err() {
    let map: Vec<(Pressed, i32)> = Vec::new();
    let res = buttons_map_to_array_generic(map);
    assert!(res.is_err(), "Expected error when buttons are missing");
}

#[test]
fn buttons_map_to_array_complete_succeeds_and_preserves_order() {
    let mut map: Vec<(Pressed, i32)> = Vec::new();

    // Insert values in arbitrary order; the function should reorder them into the expected array order.
    map.push((Pressed::A, 3));
    map.push((Pressed::B, 11));
    map.push((Pressed::X, 2));
    map.push((Pressed::Y, 10));
    map.push((Pressed::L, 1));
    map.push((Pressed::R, 0));
    map.push((Pressed::Left, 5));
    map.push((Pressed::Right, 4));
    map.push((Pressed::Up, 7));
    map.push((Pressed::Down, 6));
    map.push((Pressed::Start, 8));
    map.push((Pressed::Select, 9));

    let arr = buttons_map_to_array_generic(map).expect("should succeed with full map");

    // Verify the array matches the expected ORDER mapping (index -> value)
    for (idx, &val) in arr.iter().enumerate() {
        assert_eq!(
            val as usize, idx,
            "array value at index {} should be {}",
            idx, idx
        );
    }
}

#[test]
fn buttons_map_to_array_lets_a_later_duplicate_win() {
    let mut map: Vec<(Pressed, i32)> = Vec::new();
    let all = [
        Pressed::R,
        Pressed::L,
        Pressed::X,
        Pressed::A,
        Pressed::Right,
        Pressed::Left,
        Pressed::Down,
        Pressed::Up,
        Pressed::Start,
        Pressed::Select,
        Pressed::Y,
        Pressed::B,
    ];
    for (i, p) in all.iter().enumerate() {
        map.push((*p, i as i32));
    }
    map.push((Pressed::R, 99));
    let arr = buttons_map_to_array_generic(map).expect("full map");
    assert_eq!(99, arr[0]);
    assert_eq!(1, arr[1]);
}

#[test]
fn buttons_map_to_array_names_the_first_missing_button() {
    let mut map: Vec<(Pressed, i32)> = Vec::new();
    map.push((Pressed::B, 0));
    let err = buttons_map_to_array_generic(map).unwrap_err();
    assert_eq!(SkinError::MissingButton(Pressed::R), err);
}

fn button_line(name: &str) -> String {
    format!("<button name=\"{}\" image=\"{}.png\" x=\"1\" y=\"2\"/>", name, name)
}

fn full_document(skip: Option<&str>, backgrounds: &str) -> String {
    let names = [
        "a", "b", "x", "y", "select", "start", "l", "r", "up", "down", "left", "right",
    ];
    let mut body = String::new();
    for n in names {
        if Some(n) != skip {
            body.push_str(&button_line(n));
        }
    }
    format!(
        "<skin name=\"Test Pad\" type=\"snes\" author=\"someone\">{}{}</skin>",
        backgrounds, body
    )
}

fn default_config() -> SkinConfig {
    SkinConfig {
        skins_path: String::from("skins"),
        skin_name: String::from("test"),
        skin_background: None,
    }
}

#[test]
fn a_complete_document_builds_a_skin() {
    let doc = full_document(None, "<background name=\"MyBG\" image=\"bg.png\"/>");
    let skin = Skin::new(&doc, &default_config()).expect("complete document");
    assert_eq!("mybg", skin.background.name);
    assert_eq!("bg.png", skin.background.image);
    assert_eq!(vec!["mybg".to_string()], skin.available_backgrounds);

    let a = skin.buttons.get(Pressed::A);
    assert_eq!(Pressed::A, a.name);
    assert_eq!("a.png", a.image);
    assert_eq!(1, a.x);
    assert_eq!(2, a.y);
    let b = skin.buttons.get(Pressed::B);
    assert_eq!(Pressed::B, b.name);
}

#[test]
fn omitting_one_button_names_it() {
    let doc = full_document(Some("select"), "<background name=\"Main\" image=\"bg.png\"/>");
    let err = Skin::new(&doc, &default_config()).unwrap_err();
    assert_eq!(SkinError::MissingButton(Pressed::Select), err);
}

#[test]
fn an_unknown_button_name_is_fatal() {
    let doc = format!(
        "<skin name=\"T\" type=\"snes\"><background name=\"m\" image=\"b.png\"/>{}{}</skin>",
        button_line("zz"),
        {
            let names = [
                "a", "b", "x", "y", "select", "start", "l", "r", "up", "down", "left", "right",
            ];
            let mut body = String::new();
            for n in names {
                body.push_str(&button_line(n));
            }
            body
        }
    );
    let err = Skin::new(&doc, &default_config()).unwrap_err();
    assert_eq!(SkinError::UnknownButton("zz".to_string()), err);
}

#[test]
fn a_bad_coordinate_is_a_numeral_error() {
    let doc = format!(
        "<skin name=\"T\" type=\"snes\"><background name=\"m\" image=\"b.png\"/><button name=\"a\" image=\"a.png\" x=\"ten\" y=\"2\"/></skin>"
    );
    let err = Skin::new(&doc, &default_config()).unwrap_err();
    assert_eq!(SkinError::Parse(ParseError::Numeral), err);
}

#[test]
fn negative_coordinates_are_read_as_declared() {
    let doc = format!(
        "<skin name=\"T\" type=\"snes\"><background name=\"m\" image=\"b.png\"/>{}{}</skin>",
        "<button name=\"a\" image=\"a.png\" x=\"-7\" y=\"123\"/>",
        {
            let names = [
                "b", "x", "y", "select", "start", "l", "r", "up", "down", "left", "right",
            ];
            let mut body = String::new();
            for n in names {
                body.push_str(&button_line(n));
            }
            body
        }
    );
    let skin = Skin::new(&doc, &default_config()).expect("valid document");
    let a = skin.buttons.get(Pressed::A);
    assert_eq!(-7, a.x);
    assert_eq!(123, a.y);
}

#[test]
fn a_button_missing_an_attribute_is_fatal() {
    let doc = "<skin name=\"T\" type=\"snes\"><background name=\"m\" image=\"b.png\"/><button name=\"a\" x=\"1\" y=\"2\"/></skin>";
    let err = Skin::new(doc, &default_config()).unwrap_err();
    assert_eq!(SkinError::MissingAttribute, err);
}

#[test]
fn a_document_without_backgrounds_is_fatal() {
    let doc = full_document(None, "");
    let err = Skin::new(&doc, &default_config()).unwrap_err();
    assert_eq!(SkinError::NoBackground, err);
}

#[test]
fn the_configured_background_is_matched_case_insensitively() {
    let doc = full_document(
        None,
        "<background name=\"First\" image=\"one.png\"/><background name=\"Second\" image=\"two.png\"/>",
    );
    let mut config = default_config();
    config.skin_background = Some(String::from("SECOND"));
    let skin = Skin::new(&doc, &config).expect("the second backdrop matches");
    assert_eq!("second", skin.background.name);
    assert_eq!("two.png", skin.background.image);
}

#[test]
fn an_unmatched_background_name_is_reported() {
    let doc = full_document(None, "<background name=\"Only\" image=\"one.png\"/>");
    let mut config = default_config();
    config.skin_background = Some(String::from("other"));
    let err = Skin::new(&doc, &config).unwrap_err();
    assert_eq!(SkinError::BackgroundNotFound, err);
}

#[test]
fn without_a_configured_background_the_first_serves() {
    let doc = full_document(
        None,
        "<background name=\"First\" image=\"one.png\"/><background name=\"Second\" image=\"two.png\"/>",
    );
    let skin = Skin::new(&doc, &default_config()).expect("first backdrop serves");
    assert_eq!("first", skin.background.name);
    assert_eq!(
        vec!["first".to_string(), "second".to_string()],
        skin.available_backgrounds
    );
}

#[test]
fn a_malformed_skin_document_is_a_parse_error() {
    let err = Skin::new("<skin", &default_config()).unwrap_err();
    assert!(matches!(err, SkinError::Parse(_)));
}

#[test]
fn attribute_escapes_are_resolved() {
    let doc = full_document(None, "<background name=\"A&amp;B\" image=\"x&lt;y.png\"/>");
    let skin = Skin::new(&doc, &default_config()).expect("escaped attributes");
    assert_eq!("a&b", skin.background.name);
    assert_eq!("x<y.png", skin.background.image);
}

#[test]
fn a_duplicate_attribute_declaration_lets_the_last_win() {
    let doc = full_document(
        None,
        "<background name=\"First\" name=\"Second\" image=\"bg.png\"/>",
    );
    let skin = Skin::new(&doc, &default_config()).expect("duplicate attribute tolerated");
    assert_eq!("second", skin.background.name);
}

#[test]
fn next_background_cycles_and_wraps() {
    let doc = full_document(
        None,
        "<background name=\"First\" image=\"one.png\"/><background name=\"Second\" image=\"two.png\"/>",
    );
    let skin = Skin::new(&doc, &default_config()).expect("two backdrops");
    assert_eq!("second", skin.get_next_background().unwrap());

    let mut config = default_config();
    config.skin_background = Some(String::from("second"));
    let wrapped = Skin::new(&doc, &config).expect("second selected");
    assert_eq!("first", wrapped.get_next_background().unwrap());
}
