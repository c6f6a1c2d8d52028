use snes_input_display::configuration::SkinConfig;
use snes_input_display::errors::SkinError;
use snes_input_display::skins::skin::{Skin, SkinData};

fn minimal_skin_document(declared_name: &str, device_type: &str) -> String {
    let names = [
        "a", "b", "x", "y", "select", "start", "l", "r", "up", "down", "left", "right",
    ];
    let mut body = String::new();
    for n in names {
        body.push_str(&format!(
            "<button name=\"{}\" image=\"{}.png\" x=\"0\" y=\"0\"/>",
            n, n
        ));
    }
    format!(
        "<skin name=\"{}\" type=\"{}\"><background name=\"bg\" image=\"bg.png\"/>{}</skin>",
        declared_name, device_type, body
    )
}

#[test]
fn discovery_keeps_exactly_the_valid_skin() {
    let entries: Vec<(String, Option<String>)> = vec![
        (
            String::from("some_dir"),
            Some(minimal_skin_document("Cool Skin", "snes")),
        ),
        (String::from("unrelated_dir"), None),
    ];
    let catalog = SkinData::get_available_skins(&entries);
    assert_eq!(vec!["cool skin".to_string()], catalog);
}

#[test]
fn discovery_skips_other_device_types_and_malformed_files() {
    let entries: Vec<(String, Option<String>)> = vec![
        (String::from("a"), Some(minimal_skin_document("Zeta", "snes"))),
        (String::from("b"), Some(minimal_skin_document("Other", "nes"))),
        (String::from("c"), Some(String::from("<skin no xml here"))),
        (String::from("d"), Some(minimal_skin_document("Alpha", "snes"))),
    ];
    let catalog = SkinData::get_available_skins(&entries);
    assert_eq!(vec!["alpha".to_string(), "zeta".to_string()], catalog);
}

#[test]
fn validate_takes_the_declared_name_lowercased() {
    let doc = minimal_skin_document("Mixed Case", "snes");
    assert_eq!(
        Some("mixed case".to_string()),
        SkinData::validate_skin_source(&doc)
    );
    let wrong_type = minimal_skin_document("Mixed Case", "snes9x");
    assert_eq!(None, SkinData::validate_skin_source(&wrong_type));
    assert_eq!(None, SkinData::validate_skin_source("plain text"));
}

fn loaded_skin() -> Skin {
    let config = SkinConfig {
        skins_path: String::from("skins"),
        skin_name: String::from("alpha"),
        skin_background: None,
    };
    Skin::new(&minimal_skin_document("Alpha", "snes"), &config).expect("valid skin")
}

#[test]
fn skin_cycling_wraps_in_both_directions() {
    let catalog = vec![
        String::from("alpha"),
        String::from("beta"),
        String::from("gamma"),
    ];
    let data = SkinData::new(loaded_skin(), catalog);
    assert_eq!("beta", data.get_next_skin(&String::from("alpha")).unwrap());
    assert_eq!("alpha", data.get_next_skin(&String::from("gamma")).unwrap());
    assert_eq!("gamma", data.get_previous_skin(&String::from("alpha")).unwrap());
    assert_eq!("beta", data.get_previous_skin(&String::from("gamma")).unwrap());
}

#[test]
fn cycling_from_an_unknown_skin_is_reported() {
    let data = SkinData::new(loaded_skin(), vec![String::from("alpha")]);
    assert_eq!(
        SkinError::NotFound,
        data.get_next_skin(&String::from("missing")).unwrap_err()
    );
    assert_eq!(
        SkinError::NotFound,
        data.get_previous_skin(&String::from("missing")).unwrap_err()
    );
    assert_eq!(
        SkinError::NotFound,
        data.get_current_skin_index(&String::from("missing")).unwrap_err()
    );
}
