//! The closed set of physical SNES controller buttons and their joypad bits.

use vstd::prelude::*;

verus! {

/// One of the twelve physical buttons. Each variant is bound to exactly one
/// bit of the 16-bit joypad word; bits 0x0001 through 0x0008 and bit values
/// outside the twelve listed here never name a button.
#[derive(Debug, PartialEq, Eq, Structural, Clone, Copy)]
pub enum Pressed {
    R,
    L,
    X,
    A,
    Right,
    Left,
    Down,
    Up,
    Start,
    Select,
    Y,
    B,
}

/// The joypad bit bound to a button.
pub open spec fn spec_bit_of(p: Pressed) -> u16 {
    match p {
        Pressed::R => 0x0010,
        Pressed::L => 0x0020,
        Pressed::X => 0x0040,
        Pressed::A => 0x0080,
        Pressed::Right => 0x0100,
        Pressed::Left => 0x0200,
        Pressed::Down => 0x0400,
        Pressed::Up => 0x0800,
        Pressed::Start => 0x1000,
        Pressed::Select => 0x2000,
        Pressed::Y => 0x4000,
        Pressed::B => 0x8000,
    }
}

/// The dense slot of a button: ascending bit value, from R at 0 to B at 11.
pub open spec fn spec_index_of(p: Pressed) -> int {
    match p {
        Pressed::R => 0,
        Pressed::L => 1,
        Pressed::X => 2,
        Pressed::A => 3,
        Pressed::Right => 4,
        Pressed::Left => 5,
        Pressed::Down => 6,
        Pressed::Up => 7,
        Pressed::Start => 8,
        Pressed::Select => 9,
        Pressed::Y => 10,
        Pressed::B => 11,
    }
}

/// The button sitting at a dense slot; the inverse of `spec_index_of`.
pub open spec fn pressed_of_index(i: int) -> Pressed {
    if i == 0 {
        Pressed::R
    } else if i == 1 {
        Pressed::L
    } else if i == 2 {
        Pressed::X
    } else if i == 3 {
        Pressed::A
    } else if i == 4 {
        Pressed::Right
    } else if i == 5 {
        Pressed::Left
    } else if i == 6 {
        Pressed::Down
    } else if i == 7 {
        Pressed::Up
    } else if i == 8 {
        Pressed::Start
    } else if i == 9 {
        Pressed::Select
    } else if i == 10 {
        Pressed::Y
    } else {
        Pressed::B
    }
}

/// What decoding a joypad bit yields: the bound button for each of the twelve
/// button bits, and nothing for every other value, zero included.
pub open spec fn spec_from_bit(bit: u16) -> Option<Pressed> {
    if bit == 0x0010 {
        Some(Pressed::R)
    } else if bit == 0x0020 {
        Some(Pressed::L)
    } else if bit == 0x0040 {
        Some(Pressed::X)
    } else if bit == 0x0080 {
        Some(Pressed::A)
    } else if bit == 0x0100 {
        Some(Pressed::Right)
    } else if bit == 0x0200 {
        Some(Pressed::Left)
    } else if bit == 0x0400 {
        Some(Pressed::Down)
    } else if bit == 0x0800 {
        Some(Pressed::Up)
    } else if bit == 0x1000 {
        Some(Pressed::Start)
    } else if bit == 0x2000 {
        Some(Pressed::Select)
    } else if bit == 0x4000 {
        Some(Pressed::Y)
    } else if bit == 0x8000 {
        Some(Pressed::B)
    } else {
        None
    }
}

/// Whether a 16-bit value is one of the twelve button bits.
pub open spec fn is_button_bit(bit: u16) -> bool {
    spec_from_bit(bit) is Some
}

impl Pressed {
    /// The joypad bit bound to this button.
    pub fn bit(&self) -> (b: u16)
        ensures
            b == spec_bit_of(*self),
    {
        match self {
            Pressed::R => 0x0010,
            Pressed::L => 0x0020,
            Pressed::X => 0x0040,
            Pressed::A => 0x0080,
            Pressed::Right => 0x0100,
            Pressed::Left => 0x0200,
            Pressed::Down => 0x0400,
            Pressed::Up => 0x0800,
            Pressed::Start => 0x1000,
            Pressed::Select => 0x2000,
            Pressed::Y => 0x4000,
            Pressed::B => 0x8000,
        }
    }

    /// The dense slot of this button in a twelve-entry table ordered by
    /// ascending bit value.
    pub fn slot(&self) -> (i: usize)
        ensures
            i == spec_index_of(*self),
            i < 12,
    {
        match self {
            Pressed::R => 0,
            Pressed::L => 1,
            Pressed::X => 2,
            Pressed::A => 3,
            Pressed::Right => 4,
            Pressed::Left => 5,
            Pressed::Down => 6,
            Pressed::Up => 7,
            Pressed::Start => 8,
            Pressed::Select => 9,
            Pressed::Y => 10,
            Pressed::B => 11,
        }
    }

    /// The button sitting at a dense table slot; the inverse of `slot`.
    pub fn from_slot(i: usize) -> (p: Pressed)
        requires
            i < 12,
        ensures
            p == pressed_of_index(i as int),
    {
        if i == 0 {
            Pressed::R
        } else if i == 1 {
            Pressed::L
        } else if i == 2 {
            Pressed::X
        } else if i == 3 {
            Pressed::A
        } else if i == 4 {
            Pressed::Right
        } else if i == 5 {
            Pressed::Left
        } else if i == 6 {
            Pressed::Down
        } else if i == 7 {
            Pressed::Up
        } else if i == 8 {
            Pressed::Start
        } else if i == 9 {
            Pressed::Select
        } else if i == 10 {
            Pressed::Y
        } else {
            Pressed::B
        }
    }

    /// Decodes a 16-bit value holding at most one set bit. Each of the twelve
    /// button bits yields its button; zero and every unrecognized bit yield
    /// `None` rather than failing, since unused bits are expected to be clear
    /// on real hardware but must not crash the reader if they are not.
    pub fn try_from_bit(bit: u16) -> (r: Option<Pressed>)
        ensures
            r == spec_from_bit(bit),
    {
        match bit {
            0x0010 => Some(Pressed::R),
            0x0020 => Some(Pressed::L),
            0x0040 => Some(Pressed::X),
            0x0080 => Some(Pressed::A),
            0x0100 => Some(Pressed::Right),
            0x0200 => Some(Pressed::Left),
            0x0400 => Some(Pressed::Down),
            0x0800 => Some(Pressed::Up),
            0x1000 => Some(Pressed::Start),
            0x2000 => Some(Pressed::Select),
            0x4000 => Some(Pressed::Y),
            0x8000 => Some(Pressed::B),
            _ => None,
        }
    }
}

/// The bit-to-button binding is a bijection between the twelve button bits
/// and the twelve `Pressed` variants: decoding the bit of a button returns
/// that button, two distinct recognized bits decode to distinct buttons, and
/// every value that is not one of the twelve button bits decodes to nothing.
pub proof fn lemma_from_bit_bijection()
    ensures
        forall|p: Pressed| #[trigger] spec_from_bit(spec_bit_of(p)) == Some(p),
        forall|p: Pressed| is_button_bit(#[trigger] spec_bit_of(p)),
        forall|b1: u16, b2: u16|
            is_button_bit(b1) && is_button_bit(b2) && b1 != b2 ==> #[trigger] spec_from_bit(b1)
                != #[trigger] spec_from_bit(b2),
        forall|b: u16| !is_button_bit(b) ==> #[trigger] spec_from_bit(b) is None,
{
}

/// Decoding a button bit and reading a button's bit invert each other on the
/// twelve-slot table as well: the button in slot `i` carries the `i`-th bit
/// above 0x0008, and its slot is again `i`.
pub proof fn lemma_slot_bit_roundtrip()
    ensures
        forall|p: Pressed| pressed_of_index(#[trigger] spec_index_of(p)) == p,
        forall|i: int| 0 <= i < 12 ==> #[trigger] spec_index_of(pressed_of_index(i)) == i,
        forall|p: Pressed| #[trigger] spec_bit_of(p) == (0x0010u16 << spec_index_of(p)),
{
    assert forall|p: Pressed| #[trigger] spec_bit_of(p) == (0x0010u16 << spec_index_of(p)) by {
        assert((0x0010u16 << 0) == 0x0010u16 && (0x0010u16 << 1) == 0x0020u16 && (0x0010u16 << 2)
            == 0x0040u16 && (0x0010u16 << 3) == 0x0080u16 && (0x0010u16 << 4) == 0x0100u16 && (
        0x0010u16 << 5) == 0x0200u16 && (0x0010u16 << 6) == 0x0400u16 && (0x0010u16 << 7)
            == 0x0800u16 && (0x0010u16 << 8) == 0x1000u16 && (0x0010u16 << 9) == 0x2000u16 && (
        0x0010u16 << 10) == 0x4000u16 && (0x0010u16 << 11) == 0x8000u16) by (bit_vector);
    }
}

} // verus!
