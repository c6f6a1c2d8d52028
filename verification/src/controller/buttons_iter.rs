//! A lazy scan over the buttons set in a joypad word, from the highest bit
//! down to the lowest.

use crate::controller::pressed::{
    pressed_of_index, spec_bit_of, spec_from_bit, Pressed,
};
use vstd::prelude::*;

verus! {

/// Whether bit `p` of `v` is set.
pub open spec fn bit_set(v: u16, p: u16) -> bool {
    v & (1u16 << p) != 0
}

/// The buttons whose bits are set in `v`, scanning bit positions from `p`
/// down to 4 (bit 0x0010). Positions below 4 never contribute a button.
pub open spec fn buttons_from(v: u16, p: u16) -> Seq<Pressed>
    decreases p,
{
    if p < 4 {
        Seq::empty()
    } else if bit_set(v, p) {
        seq![pressed_of_index(p - 4)] + buttons_from(v, (p - 1) as u16)
    } else {
        buttons_from(v, (p - 1) as u16)
    }
}

/// Every button set in `v`, in strictly descending bit order.
pub open spec fn buttons_of(v: u16) -> Seq<Pressed> {
    buttons_from(v, 15)
}

/// The or of the bits of all buttons in a sequence.
pub open spec fn or_of(s: Seq<Pressed>) -> u16
    decreases s.len(),
{
    if s.len() == 0 {
        0u16
    } else {
        spec_bit_of(s[0]) | or_of(s.drop_first())
    }
}

/// Whether a button sequence is ordered by strictly descending bit value.
pub open spec fn strictly_descending(s: Seq<Pressed>) -> bool {
    forall|i: int, j: int|
        0 <= i < j < s.len() ==> spec_bit_of(#[trigger] s[i]) > spec_bit_of(#[trigger] s[j])
}

/// An iterator over the buttons currently pressed in a given `ButtonState`,
/// from the highest bit to the lowest according to the SNES joypad register
/// layout. A fresh one is obtained from `ButtonState::iter` and re-scans from
/// the top.
pub struct ButtonsIter {
    pub bitfield: u16,
    pub cursor_offset: u16,
}

impl ButtonsIter {
    /// The buttons this scan has yet to yield.
    pub open spec fn remaining(&self) -> Seq<Pressed> {
        if self.cursor_offset > 15 {
            Seq::<Pressed>::empty()
        } else {
            buttons_from(self.bitfield, (15 - self.cursor_offset) as u16)
        }
    }

    /// Yields the next pressed button, or `None` once no button bits remain
    /// at or below the cursor.
    #[verifier::loop_isolation(false)]
    pub fn next(&mut self) -> (r: Option<Pressed>)
        ensures
            final (self).bitfield == old(self).bitfield,
            match r {
                Some(p) => old(self).remaining().len() > 0 && p == old(self).remaining()[0]
                    && final (self).remaining() =~= old(self).remaining().drop_first(),
                None => old(self).remaining().len() == 0 && final (self).remaining().len() == 0,
            },
    {
        let ghost orig = *self;
        loop
            invariant
                self.bitfield == orig.bitfield,
                self.remaining() == orig.remaining(),
            decreases 16 - self.cursor_offset,
        {
            if self.cursor_offset >= 16 {
                return None;
            }
            let c = self.cursor_offset;
            let bitmask: u16 = 0x8000u16 >> c;
            proof {
                assert(c <= 15 ==> (0x8000u16 >> c) == (1u16 << (15 - c) as u16)) by (bit_vector);
            }
            self.cursor_offset = c + 1;
            if self.bitfield & bitmask > 0 {
                proof {
                    lemma_step_hit(orig, self.bitfield, c);
                }
                return Pressed::try_from_bit(bitmask);
            }
            proof {
                lemma_step_miss(self.bitfield, c);
            }
        }
    }
}

/// After the cursor passed position `15 - c` and found bit `15 - c` clear,
/// the remaining buttons are unchanged.
proof fn lemma_step_miss(v: u16, c: u16)
    requires
        c <= 15,
        v & (1u16 << ((15 - c) as u16)) == 0,
    ensures
        (ButtonsIter { bitfield: v, cursor_offset: (c + 1) as u16 }).remaining() == (ButtonsIter {
            bitfield: v,
            cursor_offset: c,
        }).remaining(),
{
    let p = (15 - c) as u16;
    if p >= 4 {
        assert(!bit_set(v, p));
        assert(buttons_from(v, p) == buttons_from(v, (p - 1) as u16));
    } else {
        assert(buttons_from(v, p) =~= Seq::<Pressed>::empty());
        if c < 15 {
            assert(buttons_from(v, (p - 1) as u16) =~= Seq::<Pressed>::empty());
        }
    }
}

/// When the cursor finds bit `15 - c` of `v` set, decoding that bit yields
/// exactly the head of the remaining buttons (or nothing, if the set bit is
/// below every button bit, in which case no button remains).
proof fn lemma_step_hit(it: ButtonsIter, v: u16, c: u16)
    requires
        c <= 15,
        it.bitfield == v,
        v & (1u16 << ((15 - c) as u16)) != 0,
        it.remaining() == (ButtonsIter { bitfield: v, cursor_offset: c }).remaining(),
    ensures
        match spec_from_bit(1u16 << ((15 - c) as u16)) {
            Some(p) => it.remaining().len() > 0 && p == it.remaining()[0] && (ButtonsIter {
                bitfield: v,
                cursor_offset: (c + 1) as u16,
            }).remaining() =~= it.remaining().drop_first(),
            None => it.remaining().len() == 0 && (ButtonsIter {
                bitfield: v,
                cursor_offset: (c + 1) as u16,
            }).remaining().len() == 0,
        },
{
    let p = (15 - c) as u16;
    if p >= 4 {
        assert(bit_set(v, p));
        lemma_button_bit_value(p);
        let head = pressed_of_index(p - 4);
        assert(buttons_from(v, p) == seq![head] + buttons_from(v, (p - 1) as u16));
        assert((seq![head] + buttons_from(v, (p - 1) as u16))[0] == head);
        assert((seq![head] + buttons_from(v, (p - 1) as u16)).drop_first() =~= buttons_from(
            v,
            (p - 1) as u16,
        ));
    } else {
        assert((1u16 << p) == 1 || (1u16 << p) == 2 || (1u16 << p) == 4 || (1u16 << p) == 8 || p
            >= 4) by (bit_vector);
        assert(spec_from_bit(1u16 << p) is None);
        assert(buttons_from(v, p) =~= Seq::<Pressed>::empty());
        if c < 15 {
            assert(buttons_from(v, (p - 1) as u16) =~= Seq::<Pressed>::empty());
        }
    }
}

/// For each button bit position, the single-bit value at that position
/// decodes to the button whose dense slot matches it.
proof fn lemma_button_bit_value(p: u16)
    requires
        4 <= p <= 15,
    ensures
        spec_from_bit(1u16 << p) == Some(pressed_of_index(p - 4)),
        spec_bit_of(pressed_of_index(p - 4)) == (1u16 << p),
{
    assert((p == 4 ==> (1u16 << p) == 0x0010u16) && (p == 5 ==> (1u16 << p) == 0x0020u16) && (p == 6
        ==> (1u16 << p) == 0x0040u16) && (p == 7 ==> (1u16 << p) == 0x0080u16) && (p == 8 ==> (1u16
        << p) == 0x0100u16) && (p == 9 ==> (1u16 << p) == 0x0200u16) && (p == 10 ==> (1u16 << p)
        == 0x0400u16) && (p == 11 ==> (1u16 << p) == 0x0800u16) && (p == 12 ==> (1u16 << p)
        == 0x1000u16) && (p == 13 ==> (1u16 << p) == 0x2000u16) && (p == 14 ==> (1u16 << p)
        == 0x4000u16) && (p == 15 ==> (1u16 << p) == 0x8000u16)) by (bit_vector);
}

/// Every element scanned from position `p` downward carries a bit no larger
/// than `1 << p`, and the scan is strictly descending.
proof fn lemma_buttons_from_descending(v: u16, p: u16)
    requires
        p <= 15,
    ensures
        strictly_descending(buttons_from(v, p)),
        forall|k: int|
            0 <= k < buttons_from(v, p).len() ==> spec_bit_of(
                #[trigger] buttons_from(v, p)[k],
            ) <= (1u16 << p),
    decreases p,
{
    if p < 4 {
    } else {
        lemma_buttons_from_descending(v, (p - 1) as u16);
        assert((1u16 << ((p - 1) as u16)) < (1u16 << p) || p < 4 || p > 15) by (bit_vector);
        if bit_set(v, p) {
            lemma_button_bit_value(p);
            let s = buttons_from(v, p);
            let rest = buttons_from(v, (p - 1) as u16);
            assert(s == seq![pressed_of_index(p - 4)] + rest);
            assert(forall|k: int| 0 <= k < rest.len() ==> s[k + 1] == #[trigger] rest[k]);
            assert(s[0] == pressed_of_index(p - 4));
        }
    }
}

/// The or of the buttons scanned from position `p` downward is `v` masked to
/// the button bits at or below `p`.
proof fn lemma_buttons_from_or(v: u16, p: u16)
    requires
        p <= 15,
    ensures
        or_of(buttons_from(v, p)) == v & ((0xFFFFu16 >> ((15 - p) as u16)) & 0xFFF0),
    decreases p,
{
    if p < 4 {
        assert(buttons_from(v, p) =~= Seq::<Pressed>::empty());
        assert(p <= 3 ==> v & ((0xFFFFu16 >> ((15 - p) as u16)) & 0xFFF0) == 0) by (bit_vector);
    } else {
        lemma_buttons_from_or(v, (p - 1) as u16);
        let rest = buttons_from(v, (p - 1) as u16);
        if bit_set(v, p) {
            lemma_button_bit_value(p);
            let head = pressed_of_index(p - 4);
            let s = buttons_from(v, p);
            assert(s == seq![head] + rest);
            assert(s[0] == head);
            assert(s.drop_first() =~= rest);
            assert(4 <= p <= 15 && v & (1u16 << p) != 0 ==> ((1u16 << p) | (v & ((0xFFFFu16 >> ((15
                - (p - 1)) as u16)) & 0xFFF0))) == (v & ((0xFFFFu16 >> ((15 - p) as u16))
                & 0xFFF0))) by (bit_vector);
        } else {
            assert(4 <= p <= 15 && v & (1u16 << p) == 0 ==> (v & ((0xFFFFu16 >> ((15 - (p
                - 1)) as u16)) & 0xFFF0)) == (v & ((0xFFFFu16 >> ((15 - p) as u16)) & 0xFFF0)))
                by (bit_vector);
        }
    }
}

/// For every 16-bit word, a full scan yields the pressed buttons in strictly
/// descending bit-value order.
pub proof fn lemma_scan_descending(v: u16)
    ensures
        strictly_descending(buttons_of(v)),
{
    lemma_buttons_from_descending(v, 15);
}

/// The scan from position `p` downward yields at most `p - 3` buttons.
proof fn lemma_buttons_from_len(v: u16, p: u16)
    requires
        p <= 15,
    ensures
        buttons_from(v, p).len() <= if p < 4 {
            0int
        } else {
            p - 3
        },
    decreases p,
{
    if p >= 4 {
        lemma_buttons_from_len(v, (p - 1) as u16);
    }
}

/// A full scan is finite: it yields at most twelve buttons.
pub proof fn lemma_scan_finite(v: u16)
    ensures
        buttons_of(v).len() <= 12,
{
    lemma_buttons_from_len(v, 15);
}

/// For every 16-bit word, the or of the bits of all buttons a full scan
/// yields is exactly `v & 0xFFF0`: every button bit of the word is reported,
/// and bits below 0x0010 are never reported.
pub proof fn lemma_scan_bits(v: u16)
    ensures
        or_of(buttons_of(v)) == v & 0xFFF0,
{
    lemma_buttons_from_or(v, 15);
    assert((0xFFFFu16 >> 0) & 0xFFF0 == 0xFFF0) by (bit_vector);
}

} // verus!
