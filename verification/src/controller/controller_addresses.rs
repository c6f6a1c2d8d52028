//! A resolved pair of joypad register addresses and the extraction of a
//! button state from the bytes read over their minimal window.

use crate::controller::button_state::ButtonState;
use crate::errors::{ParseError, TransportError};
use crate::textparse::{
    all_hex_digits, hex_value_of, is_hex_digit, lemma_hex_value_bound, lemma_pow16_le,
    lemma_pow16_small, valid_hex24,
};
use vstd::prelude::*;
use vstd::string::StrSliceExecFns;

verus! {

/// Parses a bare hexadecimal numeral of one to six digits (a 24-bit value,
/// no prefix) into its number. Non-hexadecimal characters or a wrong digit
/// count yield a `ParseError`.
pub fn hex_to_u32(hex_address: &str) -> (r: Result<u32, ParseError>)
    ensures
        match r {
            Ok(v) => valid_hex24(hex_address@) && v == hex_value_of(hex_address@) && v < 0x1000000,
            Err(e) => !valid_hex24(hex_address@) && e == ParseError::HexNumeral,
        },
{
    let n = hex_address.unicode_len();
    if n == 0 || n > 6 {
        return Err(ParseError::HexNumeral);
    }
    let mut value: u32 = 0;
    let mut i: usize = 0;
    while i < n
        invariant
            i <= n,
            n == hex_address@.len(),
            1 <= n <= 6,
            all_hex_digits(hex_address@.subrange(0, i as int)),
            value == hex_value_of(hex_address@.subrange(0, i as int)),
        decreases n - i,
    {
        let c = hex_address.get_char(i);
        let u = c as u32;
        let d: u32 = if 48 <= u && u <= 57 {
            u - 48
        } else if 97 <= u && u <= 102 {
            u - 87
        } else if 65 <= u && u <= 70 {
            u - 55
        } else {
            proof {
                assert(!is_hex_digit(hex_address@[i as int]));
            }
            return Err(ParseError::HexNumeral);
        };
        proof {
            let run = hex_address@.subrange(0, i as int);
            let run2 = hex_address@.subrange(0, i as int + 1);
            assert(run2.drop_last() =~= run);
            assert(run2.last() == hex_address@[i as int]);
            lemma_hex_value_bound(run);
            lemma_pow16_le(run.len() as nat, 5);
            lemma_pow16_small();
        }
        value = value * 16 + d;
        i += 1;
    }
    proof {
        assert(hex_address@ =~= hex_address@.subrange(0, n as int));
        lemma_hex_value_bound(hex_address@);
        lemma_pow16_le(hex_address@.len() as nat, 6);
        lemma_pow16_small();
    }
    Ok(value)
}

/// A pair of 24-bit memory addresses naming where the low and high joypad
/// register bytes live in the remote memory space for one layout.
#[derive(Debug, Clone, Copy, PartialEq, Eq, Structural)]
pub struct ControllerAddresses {
    pub address_low: u32,
    pub address_high: u32,
}

/// The minimal contiguous read window covering both register addresses.
#[derive(Debug, Clone, Copy, PartialEq, Eq, Structural)]
pub struct ReadWindow {
    /// The lower of the two addresses; reading starts here.
    pub base: u32,
    /// Where the low register byte sits inside the window.
    pub offset_low: usize,
    /// Where the high register byte sits inside the window.
    pub offset_high: usize,
    /// How many bytes the window spans.
    pub read_length: usize,
}

impl ControllerAddresses {
    /// Both addresses fit in 24 bits.
    pub open spec fn wf(&self) -> bool {
        self.address_low < 0x1000000 && self.address_high < 0x1000000
    }

    /// The lower of the two addresses.
    pub open spec fn spec_base(&self) -> int {
        if self.address_low <= self.address_high {
            self.address_low as int
        } else {
            self.address_high as int
        }
    }

    /// The offset of the low register byte inside the window.
    pub open spec fn spec_offset_low(&self) -> int {
        self.address_low - self.spec_base()
    }

    /// The offset of the high register byte inside the window.
    pub open spec fn spec_offset_high(&self) -> int {
        self.address_high - self.spec_base()
    }

    /// The span of the window: the distance between the two registers plus
    /// one, so that a single read covers both.
    pub open spec fn spec_read_length(&self) -> int {
        if self.spec_offset_low() >= self.spec_offset_high() {
            self.spec_offset_low() + 1
        } else {
            self.spec_offset_high() + 1
        }
    }

    /// Parses the two bare hexadecimal address fields of a layout.
    pub fn from_hex(low: &str, high: &str) -> (r: Result<Self, ParseError>)
        ensures
            match r {
                Ok(a) => valid_hex24(low@) && valid_hex24(high@) && a.address_low == hex_value_of(
                    low@,
                ) && a.address_high == hex_value_of(high@) && a.wf(),
                Err(e) => (!valid_hex24(low@) || !valid_hex24(high@)) && e
                    == ParseError::HexNumeral,
            },
    {
        let address_low = hex_to_u32(low)?;
        let address_high = hex_to_u32(high)?;
        Ok(ControllerAddresses { address_low, address_high })
    }

    /// Computes the minimal read window: its base is the smaller address,
    /// each register's offset is its distance from the base, and the length
    /// reaches just past the farther register.
    pub fn read_window(&self) -> (w: ReadWindow)
        requires
            self.wf(),
        ensures
            w.base == self.spec_base(),
            w.offset_low == self.spec_offset_low(),
            w.offset_high == self.spec_offset_high(),
            w.read_length == self.spec_read_length(),
    {
        let base = if self.address_low <= self.address_high {
            self.address_low
        } else {
            self.address_high
        };
        let offset_low = (self.address_low - base) as usize;
        let offset_high = (self.address_high - base) as usize;
        let read_length = if offset_low >= offset_high {
            offset_low + 1
        } else {
            offset_high + 1
        };
        ReadWindow { base, offset_low, offset_high, read_length }
    }

    /// Extracts the button state from the bytes a transport read starting at
    /// the window's base: the byte at the low register's offset becomes the
    /// low byte of the joypad word, the byte at the high register's offset
    /// its high byte. A window the returned bytes do not cover yields a
    /// `TransportError` instead of reading out of bounds.
    pub fn pushed(&self, input_bytes: &Vec<u8>) -> (r: Result<ButtonState, TransportError>)
        requires
            self.wf(),
        ensures
            match r {
                Ok(state) => self.spec_offset_low() < input_bytes@.len()
                    && self.spec_offset_high() < input_bytes@.len() && state@ == input_bytes@[self.spec_offset_low()]
                    + 256 * input_bytes@[self.spec_offset_high()],
                Err(e) => (self.spec_offset_low() >= input_bytes@.len()
                    || self.spec_offset_high() >= input_bytes@.len()) && e
                    == TransportError::ShortRead,
            },
    {
        let w = self.read_window();
        if w.offset_low >= input_bytes.len() || w.offset_high >= input_bytes.len() {
            return Err(TransportError::ShortRead);
        }
        let low = input_bytes[w.offset_low];
        let high = input_bytes[w.offset_high];
        Ok(ButtonState::from_le_bytes([low, high]))
    }
}

} // verus!
