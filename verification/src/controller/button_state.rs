//! A 16-bit bitfield wrapper over the SNES joypad register pair.

use crate::controller::buttons_iter::{buttons_of, ButtonsIter};
use vstd::prelude::*;

verus! {

/// A `u16`-backed bitfield representing a controller state according to the
/// SNES joypad register layout. Immutable once constructed; a fresh value is
/// produced on every poll.
#[derive(Debug, Copy, Clone)]
pub struct ButtonState(u16);

impl View for ButtonState {
    type V = u16;

    closed spec fn view(&self) -> u16 {
        self.0
    }
}

impl ButtonState {
    /// Constructs a `ButtonState` from little-endian bytes: the first byte is
    /// the low byte of the joypad word, the second its high byte.
    pub fn from_le_bytes(bytes: [u8; 2]) -> (r: Self)
        ensures
            r@ == bytes[0] + 256 * bytes[1],
    {
        let low = bytes[0];
        let high = bytes[1];
        let word: u16 = low as u16 | ((high as u16) << 8);
        proof {
            assert((low as u16 | ((high as u16) << 8)) == low + 256 * high) by (bit_vector);
        }
        ButtonState(word)
    }

    /// Wraps a raw 16-bit joypad word.
    pub fn from_word(word: u16) -> (r: Self)
        ensures
            r@ == word,
    {
        ButtonState(word)
    }

    /// A fresh scan over the buttons pressed in this `ButtonState`, from the
    /// highest button bit down to the lowest.
    pub fn iter(&self) -> (it: ButtonsIter)
        ensures
            it.bitfield == self@,
            it.remaining() == buttons_of(self@),
    {
        ButtonsIter { bitfield: self.0, cursor_offset: 0 }
    }
}

impl Default for ButtonState {
    /// The all-buttons-released state.
    fn default() -> (r: Self)
        ensures
            r@ == 0,
    {
        ButtonState(0)
    }
}

} // verus!
