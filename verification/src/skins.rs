//! Skin resolution: parsing a declarative skin description into backdrop
//! descriptors and a fixed, densely indexed button table.

pub mod background;
pub mod button;
pub mod button_map;
pub mod markup;
pub mod skin;

use crate::controller::pressed::{pressed_of_index, spec_index_of, Pressed};
use crate::errors::SkinError;
use crate::skins::background::Background;
use crate::skins::button::Button;
use crate::skins::button_map::ButtonsMap;
use vstd::prelude::*;

verus! {

/// The value held by the last entry keyed `p`, if any: a later duplicate
/// declaration overrides an earlier one, as map insertion would keep it.
pub open spec fn last_val<T>(s: Seq<(Pressed, T)>, p: Pressed) -> Option<T>
    decreases s.len(),
{
    if s.len() == 0 {
        None
    } else if s.last().0 == p {
        Some(s.last().1)
    } else {
        last_val(s.drop_last(), p)
    }
}

/// The lowest table slot whose button has no entry, scanning from slot `i`;
/// 12 when every slot from `i` up is covered.
pub open spec fn first_missing_from<T>(s: Seq<(Pressed, T)>, i: int) -> int
    decreases 12 - i,
{
    if i < 0 || i >= 12 {
        12
    } else if last_val(s, pressed_of_index(i)) is None {
        i
    } else {
        first_missing_from(s, i + 1)
    }
}

/// A value looked up by key was put in under that key.
proof fn lemma_last_val_mem<T>(s: Seq<(Pressed, T)>, p: Pressed)
    requires
        last_val(s, p) is Some,
    ensures
        exists|k: int|
            0 <= k < s.len() && (#[trigger] s[k]).0 == p && Some(s[k].1) == last_val(s, p),
    decreases s.len(),
{
    if s.len() > 0 {
        if s.last().0 == p {
            assert(s[s.len() - 1].0 == p && Some(s[s.len() - 1].1) == last_val(s, p));
        } else {
            lemma_last_val_mem(s.drop_last(), p);
            let k = choose|k: int|
                0 <= k < s.drop_last().len() && (#[trigger] s.drop_last()[k]).0 == p && Some(
                    s.drop_last()[k].1,
                ) == last_val(s.drop_last(), p);
            assert(s[k].0 == p && Some(s[k].1) == last_val(s, p));
        }
    }
}

/// Builds the fixed twelve-slot table from keyed entries, ordered by
/// ascending bit value (R, L, X, A, Right, Left, Down, Up, Start, Select,
/// Y, B); of duplicate entries for a button, the last wins. Succeeds
/// exactly when every one of the twelve buttons has an entry; otherwise the
/// first missing button in that order is named, and nothing is padded in
/// its place.
#[verifier::loop_isolation(false)]
pub fn buttons_map_to_array_generic<T>(buttons_map: Vec<(Pressed, T)>) -> (r: Result<
    Vec<T>,
    SkinError,
>)
    ensures
        match r {
            Ok(arr) => first_missing_from(buttons_map@, 0) == 12 && arr@.len() == 12 && forall|
                i: int,
            |
                0 <= i < 12 ==> Some(#[trigger] arr@[i]) == last_val(
                    buttons_map@,
                    pressed_of_index(i),
                ),
            Err(e) => first_missing_from(buttons_map@, 0) < 12 && e == SkinError::MissingButton(
                pressed_of_index(first_missing_from(buttons_map@, 0)),
            ),
        },
{
    let ghost pairs0 = buttons_map@;
    let mut slots: Vec<Option<T>> = Vec::new();
    let mut n: usize = 0;
    while n < 12
        invariant
            slots@.len() == n,
            n <= 12,
            forall|i: int| 0 <= i < n ==> (#[trigger] slots@[i]) is None,
        decreases 12 - n,
    {
        slots.push(None);
        n += 1;
    }
    let mut pairs = buttons_map;
    proof {
        assert(pairs0.skip(0) =~= pairs0);
        assert(pairs0.take(0) =~= Seq::<(Pressed, T)>::empty());
    }
    while pairs.len() > 0
        invariant
            slots@.len() == 12,
            pairs@ == pairs0.skip(pairs0.len() - pairs@.len()),
            pairs@.len() <= pairs0.len(),
            forall|i: int|
                0 <= i < 12 ==> #[trigger] slots@[i] == last_val(
                    pairs0.take(pairs0.len() - pairs@.len()),
                    pressed_of_index(i),
                ),
        decreases pairs@.len(),
    {
        let ghost k = pairs0.len() - pairs@.len();
        let (p, v) = pairs.remove(0);
        let i = p.slot();
        proof {
            assert(pairs0.skip(k)[0] == pairs0[k]);
            assert(pairs0.skip(k).drop_first() =~= pairs0.skip(k + 1));
            let pre = pairs0.take(k + 1);
            assert(pre.drop_last() =~= pairs0.take(k));
            assert(pre.last() == pairs0[k]);
            crate::controller::pressed::lemma_slot_bit_roundtrip();
        }
        slots[i] = Some(v);
    }
    proof {
        assert(pairs0.take(pairs0.len() as int) =~= pairs0);
    }
    let mut j: usize = 0;
    proof {
        lemma_first_missing_lower(pairs0, 0);
    }
    while j < 12
        invariant
            j <= 12,
            slots@.len() == 12,
            forall|i: int|
                0 <= i < 12 ==> #[trigger] slots@[i] == last_val(pairs0, pressed_of_index(i)),
            forall|i: int| 0 <= i < j ==> (#[trigger] slots@[i]) is Some,
            first_missing_from(pairs0, 0) >= j,
        decreases 12 - j,
    {
        proof {
            lemma_first_missing_step(pairs0, j as int);
        }
        if slots[j].is_none() {
            proof {
                lemma_first_missing_stops(pairs0, j as int);
            }
            return Err(SkinError::MissingButton(Pressed::from_slot(j)));
        }
        j += 1;
    }
    proof {
        lemma_first_missing_done(pairs0);
    }
    let mut arr: Vec<T> = Vec::new();
    let ghost slots0 = slots@;
    while slots.len() > 0
        invariant
            slots0.len() == 12,
            arr@.len() + slots@.len() == 12,
            forall|i: int| 0 <= i < slots@.len() ==> #[trigger] slots@[i] == slots0[arr@.len() + i],
            forall|i: int| 0 <= i < slots0.len() ==> (#[trigger] slots0[i]) is Some,
            forall|i: int| 0 <= i < arr@.len() ==> Some(#[trigger] arr@[i]) == slots0[i],
        decreases slots@.len(),
    {
        let ghost taken = arr@.len();
        let s0 = slots.remove(0);
        proof {
            assert(forall|i: int|
                0 <= i < slots@.len() ==> #[trigger] slots@[i] == slots0[taken + 1 + i]);
        }
        arr.push(s0.unwrap());
    }
    Ok(arr)
}

/// Scanning for a missing slot continues past a covered one.
proof fn lemma_first_missing_step<T>(s: Seq<(Pressed, T)>, j: int)
    requires
        0 <= j < 12,
        first_missing_from(s, 0) >= j,
    ensures
        last_val(s, pressed_of_index(j)) is Some ==> first_missing_from(s, 0) >= j + 1,
{
    lemma_first_missing_ge(s, 0, j);
}

/// The scan from slot `i` never stops before `i`, nor past 12.
proof fn lemma_first_missing_lower<T>(s: Seq<(Pressed, T)>, i: int)
    requires
        0 <= i <= 12,
    ensures
        i <= first_missing_from(s, i) <= 12,
    decreases 12 - i,
{
    if i < 12 {
        lemma_first_missing_lower(s, i + 1);
    }
}

/// When every slot before `j` is covered and slot `j` is not, the scan from
/// any earlier point stops exactly at `j`.
proof fn lemma_first_missing_ge<T>(s: Seq<(Pressed, T)>, i: int, j: int)
    requires
        0 <= i <= j < 12,
        first_missing_from(s, i) >= j,
    ensures
        last_val(s, pressed_of_index(j)) is Some ==> first_missing_from(s, i) >= j + 1,
        last_val(s, pressed_of_index(j)) is None ==> first_missing_from(s, i) == j,
    decreases j - i,
{
    if i < j {
        lemma_first_missing_ge(s, i + 1, j);
    } else {
        lemma_first_missing_lower(s, i + 1);
    }
}

/// The scan stops at the first uncovered slot.
proof fn lemma_first_missing_stops<T>(s: Seq<(Pressed, T)>, j: int)
    requires
        0 <= j < 12,
        first_missing_from(s, 0) >= j,
        last_val(s, pressed_of_index(j)) is None,
    ensures
        first_missing_from(s, 0) == j,
{
    lemma_first_missing_ge(s, 0, j);
}

/// A scan that passed every slot finds none missing.
pub proof fn lemma_first_missing_done<T>(s: Seq<(Pressed, T)>)
    requires
        first_missing_from(s, 0) >= 12,
    ensures
        first_missing_from(s, 0) == 12,
        forall|i: int| 0 <= i < 12 ==> last_val(s, #[trigger] pressed_of_index(i)) is Some,
{
    lemma_first_missing_lower(s, 0);
    assert forall|i: int| 0 <= i < 12 implies last_val(s, #[trigger] pressed_of_index(i)) is Some by {
        if last_val(s, pressed_of_index(i)) is None {
            lemma_first_missing_ge(s, 0, i);
        }
    }
}

/// Produces the owned twelve-slot button table from keyed button overlays.
pub fn buttons_map_to_array(buttons_map: Vec<(Pressed, Button)>) -> (r: Result<
    Box<ButtonsMap>,
    SkinError,
>)
    requires
        forall|k: int|
            0 <= k < buttons_map@.len() ==> (#[trigger] buttons_map@[k]).1.name
                == buttons_map@[k].0,
    ensures
        match r {
            Ok(m) => m.wf() && first_missing_from(buttons_map@, 0) == 12 && forall|i: int|
                0 <= i < 12 ==> Some(#[trigger] m.0@[i]) == last_val(
                    buttons_map@,
                    pressed_of_index(i),
                ),
            Err(e) => first_missing_from(buttons_map@, 0) < 12 && e == SkinError::MissingButton(
                pressed_of_index(first_missing_from(buttons_map@, 0)),
            ),
        },
{
    let ghost pairs0 = buttons_map@;
    let arr = buttons_map_to_array_generic(buttons_map)?;
    proof {
        crate::controller::pressed::lemma_slot_bit_roundtrip();
        assert forall|i: int| 0 <= i < 12 implies spec_index_of((#[trigger] arr@[i]).name) == i by {
            lemma_last_val_mem(pairs0, pressed_of_index(i));
        }
    }
    Ok(Box::new(ButtonsMap(arr)))
}

/// The first declared backdrop bearing a name, scanning in document order.
pub open spec fn find_background(s: Seq<Background>, name: Seq<char>) -> Option<Background>
    decreases s.len(),
{
    if s.len() == 0 {
        None
    } else if s[0].name@ == name {
        Some(s[0])
    } else {
        find_background(s.drop_first(), name)
    }
}

/// What the backdrop search yields: the backdrop at the first matching
/// position when one exists, and nothing exactly when no name matches.
pub proof fn lemma_find_background_characterizes(s: Seq<Background>, name: Seq<char>)
    ensures
        find_background(s, name) is Some ==> exists|i: int|
            0 <= i < s.len() && (#[trigger] s[i]).name@ == name && find_background(s, name)
                == Some(s[i]) && (forall|j: int| 0 <= j < i ==> (#[trigger] s[j]).name@ != name),
        find_background(s, name) is None ==> forall|i: int|
            0 <= i < s.len() ==> (#[trigger] s[i]).name@ != name,
    decreases s.len(),
{
    if s.len() > 0 && s[0].name@ != name {
        lemma_find_background_characterizes(s.drop_first(), name);
        assert(forall|i: int|
            0 <= i < s.drop_first().len() ==> (#[trigger] s.drop_first()[i]) == s[i + 1]);
        if find_background(s, name) is Some {
            let i = choose|i: int|
                0 <= i < s.drop_first().len() && (#[trigger] s.drop_first()[i]).name@ == name
                    && find_background(s.drop_first(), name) == Some(s.drop_first()[i]) && (forall|
                    j: int,
                |
                    0 <= j < i ==> (#[trigger] s.drop_first()[j]).name@ != name);
            assert(s[i + 1].name@ == name);
            assert(find_background(s, name) == Some(s[i + 1]));
            assert forall|j: int| 0 <= j < i + 1 implies (#[trigger] s[j]).name@ != name by {
                if j >= 1 {
                    assert(s.drop_first()[j - 1].name@ != name);
                }
            }
        } else {
            assert forall|i: int| 0 <= i < s.len() implies (#[trigger] s[i]).name@ != name by {
                if i >= 1 {
                    assert(s.drop_first()[i - 1].name@ != name);
                }
            }
        }
    }
}

/// Finds the declared backdrop whose (lowercased) name equals `background`,
/// the first one in document order.
#[verifier::loop_isolation(false)]
pub fn parse_backgrounds(backgrounds_vec: Vec<Background>, background: &String) -> (r: Option<
    Background,
>)
    ensures
        r == find_background(backgrounds_vec@, background@),
{
    let ghost all = backgrounds_vec@;
    let mut remaining = backgrounds_vec;
    let mut i: usize = 0;
    proof {
        assert(all.skip(0) =~= all);
    }
    while i < remaining.len()
        invariant
            i <= all.len(),
            remaining@ == all,
            find_background(all, background@) == find_background(all.skip(i as int), background@),
        decreases all.len() - i,
    {
        let hit = crate::textparse::str_eq_str(remaining[i].name.as_str(), background.as_str());
        proof {
            assert(all.skip(i as int)[0] == all[i as int]);
            assert(all.skip(i as int).drop_first() =~= all.skip(i as int + 1));
        }
        if hit {
            let found = remaining.remove(i);
            proof {
                assert(find_background(all, background@) == Some(all[i as int]));
            }
            return Some(found);
        }
        i += 1;
    }
    None
}

} // verus!
