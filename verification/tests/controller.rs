use snes_input_display::controller::button_state::ButtonState;
use snes_input_display::controller::controller_addresses::{hex_to_u32, ControllerAddresses};
use snes_input_display::controller::pressed::Pressed;
use snes_input_display::errors::{ParseError, TransportError};

#[test]
pub fn test_buttons_iter() {
    let mut some_buttons_iter = ButtonState::from_le_bytes([0xA0, 0x03]).iter();
    assert_eq!(Some(Pressed::Left), some_buttons_iter.next());
    assert_eq!(Some(Pressed::Right), some_buttons_iter.next());
    assert_eq!(Some(Pressed::A), some_buttons_iter.next());
    assert_eq!(Some(Pressed::L), some_buttons_iter.next());
    assert_eq!(None, some_buttons_iter.next());

    let mut no_buttons_iter = ButtonState::from_le_bytes([0x00, 0x00]).iter();
    assert_eq!(None, no_buttons_iter.next());
}

#[test]
fn buttons_iter_is_restartable() {
    let state = ButtonState::from_le_bytes([0x10, 0x00]);
    let mut first_scan = state.iter();
    assert_eq!(Some(Pressed::R), first_scan.next());
    assert_eq!(None, first_scan.next());
    let mut second_scan = state.iter();
    assert_eq!(Some(Pressed::R), second_scan.next());
}

#[test]
fn buttons_iter_skips_low_bits() {
    // bits 0x0001..0x0008 never name a button
    let mut it = ButtonState::from_le_bytes([0x1F, 0x00]).iter();
    assert_eq!(Some(Pressed::R), it.next());
    assert_eq!(None, it.next());
}

#[test]
fn try_from_bit_maps_every_button_bit() {
    assert_eq!(Some(Pressed::R), Pressed::try_from_bit(0x0010));
    assert_eq!(Some(Pressed::L), Pressed::try_from_bit(0x0020));
    assert_eq!(Some(Pressed::X), Pressed::try_from_bit(0x0040));
    assert_eq!(Some(Pressed::A), Pressed::try_from_bit(0x0080));
    assert_eq!(Some(Pressed::Right), Pressed::try_from_bit(0x0100));
    assert_eq!(Some(Pressed::Left), Pressed::try_from_bit(0x0200));
    assert_eq!(Some(Pressed::Down), Pressed::try_from_bit(0x0400));
    assert_eq!(Some(Pressed::Up), Pressed::try_from_bit(0x0800));
    assert_eq!(Some(Pressed::Start), Pressed::try_from_bit(0x1000));
    assert_eq!(Some(Pressed::Select), Pressed::try_from_bit(0x2000));
    assert_eq!(Some(Pressed::Y), Pressed::try_from_bit(0x4000));
    assert_eq!(Some(Pressed::B), Pressed::try_from_bit(0x8000));
}

#[test]
fn try_from_bit_rejects_everything_else() {
    assert_eq!(None, Pressed::try_from_bit(0x0000));
    assert_eq!(None, Pressed::try_from_bit(0x0001));
    assert_eq!(None, Pressed::try_from_bit(0x0002));
    assert_eq!(None, Pressed::try_from_bit(0x0004));
    assert_eq!(None, Pressed::try_from_bit(0x0008));
    assert_eq!(None, Pressed::try_from_bit(0x0030));
    assert_eq!(None, Pressed::try_from_bit(0xFFFF));
}

#[test]
fn every_button_roundtrips_through_its_bit() {
    let all = [
        Pressed::R,
        Pressed::L,
        Pressed::X,
        Pressed::A,
        Pressed::Right,
        Pressed::Left,
        Pressed::Down,
        Pressed::Up,
        Pressed::Start,
        Pressed::Select,
        Pressed::Y,
        Pressed::B,
    ];
    for p in all {
        assert_eq!(Some(p), Pressed::try_from_bit(p.bit()));
    }
}

#[test]
fn hex_to_u32_parses_bare_24_bit_numerals() {
    assert_eq!(Ok(0xF500F2), hex_to_u32("F500F2"));
    assert_eq!(Ok(0xf2), hex_to_u32("f2"));
    assert_eq!(Ok(0x0), hex_to_u32("0"));
    assert_eq!(Ok(0xFFFFFF), hex_to_u32("FFFFFF"));
    assert_eq!(Ok(0xAb12), hex_to_u32("Ab12"));
}

#[test]
fn hex_to_u32_rejects_malformed_numerals() {
    assert_eq!(Err(ParseError::HexNumeral), hex_to_u32(""));
    assert_eq!(Err(ParseError::HexNumeral), hex_to_u32("0xF2"));
    assert_eq!(Err(ParseError::HexNumeral), hex_to_u32("12G4"));
    assert_eq!(Err(ParseError::HexNumeral), hex_to_u32("1234567"));
    assert_eq!(Err(ParseError::HexNumeral), hex_to_u32("-12"));
}

#[test]
fn read_window_covers_both_registers() {
    let addresses = ControllerAddresses {
        address_low: 0xF500F2,
        address_high: 0xF500F0,
    };
    let w = addresses.read_window();
    assert_eq!(0xF500F0, w.base);
    assert_eq!(2, w.offset_low);
    assert_eq!(0, w.offset_high);
    assert_eq!(3, w.read_length);
}

#[test]
fn poll_assigns_offsets_regardless_of_address_order() {
    // low register numerically above the high one
    let addresses = ControllerAddresses {
        address_low: 0xF500F2,
        address_high: 0xF500F0,
    };
    let transport_bytes: Vec<u8> = vec![0x03, 0xEE, 0xA0];
    let state = addresses.pushed(&transport_bytes).expect("window is covered");
    let expected = ButtonState::from_le_bytes([0xA0, 0x03]);
    let scanned: Vec<Pressed> = {
        let mut out = Vec::new();
        let mut it = state.iter();
        while let Some(p) = it.next() {
            out.push(p);
        }
        out
    };
    let expected_scanned: Vec<Pressed> = {
        let mut out = Vec::new();
        let mut it = expected.iter();
        while let Some(p) = it.next() {
            out.push(p);
        }
        out
    };
    assert_eq!(expected_scanned, scanned);
    assert_eq!(
        vec![Pressed::Left, Pressed::Right, Pressed::A, Pressed::L],
        scanned
    );
}

#[test]
fn poll_reports_a_short_read() {
    let addresses = ControllerAddresses {
        address_low: 0xF500F2,
        address_high: 0xF500F0,
    };
    let too_short: Vec<u8> = vec![0x03, 0xEE];
    assert_eq!(
        TransportError::ShortRead,
        addresses.pushed(&too_short).unwrap_err()
    );
}
