use snes_input_display::configuration::ControllerConfig;
use snes_input_display::controller::controller_impl::ControllerData;
use snes_input_display::errors::BookError;

fn two_layout_document() -> &'static str {
    r#"{"layouts": {
        "Default": {"address_low": "F500F2", "address_high": "F500F0"},
        "SMW": {"address_low": "F90718", "address_high": "F90719"}
    }}"#
}

fn config_for(layout: &str) -> ControllerConfig {
    ControllerConfig {
        input_config_path: String::new(),
        layout: layout.to_string(),
    }
}

#[test]
fn select_then_next_walks_the_sorted_names() {
    let mut book = ControllerData::new(two_layout_document(), &config_for("Default")).unwrap();
    assert_eq!(vec!["Default".to_string(), "SMW".to_string()], book.available_layouts);
    assert_eq!("Default", book.layout_name);
    assert_eq!(0, book.current_layout_index);
    assert_eq!(0xF500F2, book.current_addresses.address_low);
    assert_eq!(0xF500F0, book.current_addresses.address_high);

    book.get_next_layout();
    assert_eq!("SMW", book.layout_name);
    assert_eq!(1, book.current_layout_index);
    assert_eq!(0xF90718, book.current_addresses.address_low);
    assert_eq!(0xF90719, book.current_addresses.address_high);
}

#[test]
fn next_then_previous_returns_to_the_start() {
    let mut book = ControllerData::new(two_layout_document(), &config_for("SMW")).unwrap();
    let name_before = book.layout_name.clone();
    let index_before = book.current_layout_index;
    let addresses_before = book.current_addresses;
    book.get_next_layout();
    book.get_prev_layout();
    assert_eq!(name_before, book.layout_name);
    assert_eq!(index_before, book.current_layout_index);
    assert_eq!(addresses_before, book.current_addresses);
}

#[test]
fn previous_then_next_returns_to_the_start() {
    let mut book = ControllerData::new(two_layout_document(), &config_for("Default")).unwrap();
    book.get_prev_layout();
    assert_eq!("SMW", book.layout_name);
    book.get_next_layout();
    assert_eq!("Default", book.layout_name);
}

#[test]
fn as_many_nexts_as_layouts_is_a_full_cycle() {
    let mut book = ControllerData::new(two_layout_document(), &config_for("Default")).unwrap();
    let count = book.available_layouts.len();
    for _ in 0..count {
        book.get_next_layout();
    }
    assert_eq!("Default", book.layout_name);
    assert_eq!(0, book.current_layout_index);
}

#[test]
fn an_absent_starting_layout_is_reported() {
    let result = ControllerData::new(two_layout_document(), &config_for("No Such Game"));
    assert_eq!(BookError::LayoutNotFound, result.unwrap_err());
}

#[test]
fn a_malformed_layout_document_is_a_parse_error() {
    let result = ControllerData::new("{not json", &config_for("Default"));
    assert!(matches!(result.unwrap_err(), BookError::Parse(_)));
}

#[test]
fn a_document_without_layouts_member_is_a_parse_error() {
    let result = ControllerData::new(r#"{"other": 1}"#, &config_for("Default"));
    assert!(matches!(result.unwrap_err(), BookError::Parse(_)));
}

#[test]
fn a_bad_address_numeral_is_a_parse_error() {
    let doc = r#"{"layouts": {"Default": {"address_low": "XYZ", "address_high": "F500F0"}}}"#;
    let result = ControllerData::new(doc, &config_for("Default"));
    assert!(matches!(result.unwrap_err(), BookError::Parse(_)));
}

#[test]
fn layout_names_come_out_sorted() {
    let doc = r#"{"layouts": {
        "Super Mario World": {"address_low": "F90718", "address_high": "F90719"},
        "A Link To The Past": {"address_low": "F500F2", "address_high": "F500F0"},
        "Default": {"address_low": "F500F2", "address_high": "F500F0"}
    }}"#;
    let book = ControllerData::new(doc, &config_for("A Link To The Past")).unwrap();
    assert_eq!(
        vec![
            "A Link To The Past".to_string(),
            "Default".to_string(),
            "Super Mario World".to_string(),
        ],
        book.available_layouts
    );
    assert_eq!(0, book.current_layout_index);
}
