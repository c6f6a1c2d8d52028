//! The fixed twelve-slot button table, indexable by `Pressed`.

use crate::controller::pressed::{
    lemma_slot_bit_roundtrip, pressed_of_index, spec_index_of, Pressed,
};
use crate::skins::button::Button;
use vstd::prelude::*;

verus! {

/// A wrapper over twelve button overlays, one per `Pressed` variant. The
/// slots are ordered by the buttons' bit values, ascending from the lowest
/// bit to the highest, so a lookup by `Pressed` is direct indexing.
#[derive(Debug)]
pub struct ButtonsMap(pub Vec<Button>);

impl ButtonsMap {
    /// The table's invariant: exactly twelve slots, the `i`-th holding the
    /// button whose dense slot is `i`.
    pub open spec fn wf(&self) -> bool {
        self.0@.len() == 12 && forall|i: int|
            0 <= i < 12 ==> spec_index_of((#[trigger] self.0@[i]).name) == i
    }

    /// The overlay of a button, by direct indexing.
    pub fn get(&self, pressed: Pressed) -> (b: &Button)
        requires
            self.wf(),
        ensures
            *b == self.0@[spec_index_of(pressed)],
            b.name == pressed,
    {
        let i = pressed.slot();
        proof {
            lemma_slot_bit_roundtrip();
            assert(pressed_of_index(spec_index_of(self.0@[i as int].name)) == self.0@[i as int].name);
        }
        &self.0[i]
    }
}

} // verus!
