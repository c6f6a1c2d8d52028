//! The loaded skin — one selected backdrop and the complete twelve-entry
//! button table — and the catalog of discovered skins with cyclic
//! switching.

use crate::configuration::SkinConfig;
use crate::controller::controller_impl::{spec_next_index, spec_prev_index};
use crate::controller::pressed::{pressed_of_index, spec_index_of, Pressed};
use crate::errors::SkinError;
use crate::skins::background::{bg_attrs_valid, spec_bg_image, spec_bg_name, Background};
use crate::skins::button::{
    button_attrs_valid, spec_button_image, spec_button_pressed, spec_button_x, spec_button_y,
    Button,
};
use crate::skins::button_map::ButtonsMap;
use crate::skins::markup::{attr_value, parse_elements, ElementKind, RawElement};
use crate::skins::{
    buttons_map_to_array, find_background, first_missing_from, last_val,
    lemma_find_background_characterizes, lemma_first_missing_done, parse_backgrounds,
};
use crate::textparse::{
    lemma_lex_refl, lemma_lex_total, lemma_lex_trans, lex_le, lower_of, lowercase, str_eq_str,
    str_le,
};
use vstd::multiset::Multiset;
use vstd::prelude::*;

verus! {

broadcast use vstd::seq_lib::group_to_multiset_ensures, vstd::string::group_string_axioms;

/// Whether an element declares a backdrop.
pub open spec fn is_bg_element(e: RawElement) -> bool {
    e.kind == ElementKind::SelfClosed && e.name@ == "background"@
}

/// Whether an element declares a button overlay.
pub open spec fn is_button_element(e: RawElement) -> bool {
    e.kind == ElementKind::SelfClosed && e.name@ == "button"@
}

/// The elements satisfying `p`, in document order.
pub open spec fn sel_elements(s: Seq<RawElement>, p: spec_fn(RawElement) -> bool) -> Seq<
    RawElement,
>
    decreases s.len(),
{
    if s.len() == 0 {
        Seq::empty()
    } else {
        let rest = sel_elements(s.drop_last(), p);
        if p(s.last()) {
            rest.push(s.last())
        } else {
            rest
        }
    }
}

/// The backdrop declarations, in document order.
pub open spec fn bg_elements(s: Seq<RawElement>) -> Seq<RawElement> {
    sel_elements(s, |e: RawElement| is_bg_element(e))
}

/// The button declarations, in document order.
pub open spec fn button_elements(s: Seq<RawElement>) -> Seq<RawElement> {
    sel_elements(s, |e: RawElement| is_button_element(e))
}

/// The backdrop declarations of a prefix are a prefix of the backdrop
/// declarations.
proof fn lemma_bg_prefix(s: Seq<RawElement>, k: int)
    requires
        0 <= k <= s.len(),
    ensures
        bg_elements(s.take(k)).len() <= bg_elements(s).len(),
        forall|i: int|
            0 <= i < bg_elements(s.take(k)).len() ==> #[trigger] bg_elements(s.take(k))[i]
                == bg_elements(s)[i],
    decreases s.len() - k,
{
    if k == s.len() {
        assert(s.take(k) =~= s);
    } else {
        lemma_bg_prefix(s, k + 1);
        assert(s.take(k + 1).drop_last() =~= s.take(k));
        assert(s.take(k + 1).last() == s[k]);
        if is_bg_element(s[k]) {
            assert(bg_elements(s.take(k + 1)) == bg_elements(s.take(k)).push(s[k]));
            assert forall|i: int|
                0 <= i < bg_elements(s.take(k)).len() implies #[trigger] bg_elements(s.take(k))[i]
                == bg_elements(s)[i] by {
                assert(bg_elements(s.take(k))[i] == bg_elements(s.take(k + 1))[i]);
            }
        } else {
            assert(bg_elements(s.take(k + 1)) == bg_elements(s.take(k)));
        }
    }
}

/// The button declarations of a prefix are a prefix of the button
/// declarations.
proof fn lemma_button_prefix(s: Seq<RawElement>, k: int)
    requires
        0 <= k <= s.len(),
    ensures
        button_elements(s.take(k)).len() <= button_elements(s).len(),
        forall|i: int|
            0 <= i < button_elements(s.take(k)).len() ==> #[trigger] button_elements(s.take(k))[i]
                == button_elements(s)[i],
    decreases s.len() - k,
{
    if k == s.len() {
        assert(s.take(k) =~= s);
    } else {
        lemma_button_prefix(s, k + 1);
        assert(s.take(k + 1).drop_last() =~= s.take(k));
        assert(s.take(k + 1).last() == s[k]);
        if is_button_element(s[k]) {
            assert(button_elements(s.take(k + 1)) == button_elements(s.take(k)).push(s[k]));
            assert forall|i: int|
                0 <= i < button_elements(s.take(k)).len() implies #[trigger] button_elements(
                s.take(k),
            )[i] == button_elements(s)[i] by {
                assert(button_elements(s.take(k))[i] == button_elements(s.take(k + 1))[i]);
            }
        } else {
            assert(button_elements(s.take(k + 1)) == button_elements(s.take(k)));
        }
    }
}

/// Whether every backdrop and button declaration in the document is valid.
pub open spec fn layout_valid(s: Seq<RawElement>) -> bool {
    &&& (forall|i: int|
        0 <= i < bg_elements(s).len() ==> bg_attrs_valid(#[trigger] bg_elements(s)[i].attrs@))
    &&& (forall|i: int|
        0 <= i < button_elements(s).len() ==> button_attrs_valid(
            #[trigger] button_elements(s)[i].attrs@,
        ))
}

/// Whether a built overlay carries exactly what a button element declares.
pub open spec fn button_matches(bt: Button, e: RawElement) -> bool {
    &&& bt.name == spec_button_pressed(e.attrs@)
    &&& bt.image@ == spec_button_image(e.attrs@)
    &&& bt.x == spec_button_x(e.attrs@)
    &&& bt.y == spec_button_y(e.attrs@)
}

/// Each button declaration keyed by the button it depicts, in document
/// order.
pub open spec fn spec_button_pairs(s: Seq<RawElement>) -> Seq<(Pressed, RawElement)>
    decreases s.len(),
{
    if s.len() == 0 {
        Seq::empty()
    } else {
        let rest = spec_button_pairs(s.drop_last());
        if is_button_element(s.last()) {
            rest.push((spec_button_pressed(s.last().attrs@), s.last()))
        } else {
            rest
        }
    }
}

/// The keyed declarations mirror the button declarations one to one.
proof fn lemma_button_pairs_align(s: Seq<RawElement>)
    ensures
        spec_button_pairs(s).len() == button_elements(s).len(),
        forall|i: int|
            0 <= i < spec_button_pairs(s).len() ==> (#[trigger] spec_button_pairs(s)[i]).1
                == button_elements(s)[i] && spec_button_pairs(s)[i].0 == spec_button_pressed(
                button_elements(s)[i].attrs@,
            ),
    decreases s.len(),
{
    if s.len() > 0 {
        lemma_button_pairs_align(s.drop_last());
    }
}

/// Two keyed sequences that agree slot by slot resolve every button to
/// matching last declarations.
proof fn lemma_last_val_aligned(a: Seq<(Pressed, Button)>, b: Seq<(Pressed, RawElement)>, p: Pressed)
    requires
        a.len() == b.len(),
        forall|i: int|
            0 <= i < a.len() ==> (#[trigger] a[i]).0 == b[i].0 && button_matches(a[i].1, b[i].1),
    ensures
        last_val(a, p) is Some <==> last_val(b, p) is Some,
        last_val(a, p) is Some ==> button_matches(last_val(a, p).unwrap(), last_val(b, p).unwrap()),
    decreases a.len(),
{
    if a.len() > 0 {
        assert(a[a.len() - 1].0 == b[b.len() - 1].0);
        if a.last().0 != p {
            assert(forall|i: int|
                0 <= i < a.drop_last().len() ==> (#[trigger] a.drop_last()[i]) == a[i]
                    && b.drop_last()[i] == b[i]);
            lemma_last_val_aligned(a.drop_last(), b.drop_last(), p);
        }
    }
}

/// Walks the parsed elements: each self-closing `background` element
/// becomes a backdrop descriptor and each self-closing `button` element a
/// keyed button overlay, in document order; every other element is passed
/// over. The first invalid declaration stops the walk with its error:
/// nothing is silently dropped or guessed.
#[verifier::loop_isolation(false)]
fn get_layout(elements: &Vec<RawElement>) -> (r: Result<
    (Vec<Background>, Vec<(Pressed, Button)>),
    SkinError,
>)
    ensures
        match r {
            Ok(pair) => {
                let bels = bg_elements(elements@);
                let buts = button_elements(elements@);
                &&& layout_valid(elements@)
                &&& pair.0@.len() == bels.len()
                &&& (forall|i: int|
                    0 <= i < bels.len() ==> (#[trigger] pair.0@[i]).name@ == spec_bg_name(
                        bels[i].attrs@,
                    ) && pair.0@[i].image@ == spec_bg_image(bels[i].attrs@))
                &&& pair.1@.len() == buts.len()
                &&& (forall|i: int|
                    0 <= i < buts.len() ==> (#[trigger] pair.1@[i]).0 == spec_button_pressed(
                        buts[i].attrs@,
                    ) && pair.1@[i].1.name == pair.1@[i].0 && button_matches(
                        pair.1@[i].1,
                        buts[i],
                    ))
            },
            Err(e) => !layout_valid(elements@),
        },
{
    let mut backgrounds: Vec<Background> = Vec::new();
    let mut buttons: Vec<(Pressed, Button)> = Vec::new();
    let mut k: usize = 0;
    proof {
        reveal_strlit("background");
        reveal_strlit("button");
        assert(elements@.take(0) =~= Seq::<RawElement>::empty());
    }
    while k < elements.len()
        invariant
            k <= elements@.len(),
            backgrounds@.len() == bg_elements(elements@.take(k as int)).len(),
            forall|i: int|
                0 <= i < backgrounds@.len() ==> (#[trigger] backgrounds@[i]).name@ == spec_bg_name(
                    bg_elements(elements@.take(k as int))[i].attrs@,
                ) && backgrounds@[i].image@ == spec_bg_image(
                    bg_elements(elements@.take(k as int))[i].attrs@,
                ),
            forall|i: int|
                0 <= i < backgrounds@.len() ==> bg_attrs_valid(
                    #[trigger] bg_elements(elements@.take(k as int))[i].attrs@,
                ),
            buttons@.len() == button_elements(elements@.take(k as int)).len(),
            forall|i: int|
                0 <= i < buttons@.len() ==> (#[trigger] buttons@[i]).0 == spec_button_pressed(
                    button_elements(elements@.take(k as int))[i].attrs@,
                ) && buttons@[i].1.name == buttons@[i].0 && button_matches(
                    buttons@[i].1,
                    button_elements(elements@.take(k as int))[i],
                ),
            forall|i: int|
                0 <= i < buttons@.len() ==> button_attrs_valid(
                    #[trigger] button_elements(elements@.take(k as int))[i].attrs@,
                ),
        decreases elements@.len() - k,
    {
        let e = &elements[k];
        proof {
            reveal_strlit("background");
            reveal_strlit("button");
            assert("background"@.len() == 10);
            assert("button"@.len() == 6);
            assert(elements@.take(k as int + 1).drop_last() =~= elements@.take(k as int));
            assert(elements@.take(k as int + 1).last() == elements@[k as int]);
        }
        let self_closed = e.kind == ElementKind::SelfClosed;
        if self_closed && str_eq_str(e.name.as_str(), "background") {
            let bg = match Background::new(&e.attrs) {
                Ok(b) => b,
                Err(err) => {
                    proof {
                        lemma_bg_prefix(elements@, k as int + 1);
                        let t = elements@.take(k as int + 1);
                        let idx = bg_elements(t).len() - 1;
                        assert(bg_elements(t)[idx] == elements@[k as int]);
                        assert(!bg_attrs_valid(bg_elements(elements@)[idx].attrs@));
                    }
                    return Err(err);
                },
            };
            backgrounds.push(bg);
        } else if self_closed && str_eq_str(e.name.as_str(), "button") {
            let bt = match Button::new(&e.attrs) {
                Ok(b) => b,
                Err(err) => {
                    proof {
                        lemma_button_prefix(elements@, k as int + 1);
                        let t = elements@.take(k as int + 1);
                        let idx = button_elements(t).len() - 1;
                        assert(button_elements(t)[idx] == elements@[k as int]);
                        assert(!button_attrs_valid(button_elements(elements@)[idx].attrs@));
                    }
                    return Err(err);
                },
            };
            buttons.push((bt.name, bt));
        }
        k += 1;
    }
    proof {
        assert(elements@.take(elements@.len() as int) =~= elements@);
    }
    Ok((backgrounds, buttons))
}

/// The loaded skin: exactly one selected backdrop, the complete
/// twelve-entry button table, and the names of every declared backdrop for
/// cycling. All of it is immutable after construction; switching skin or
/// backdrop builds a new value.
#[derive(Debug)]
pub struct Skin {
    pub background: Background,
    pub buttons: Box<ButtonsMap>,
    pub available_backgrounds: Vec<String>,
}

/// The position of the first name equal to `name`, if any.
pub open spec fn name_index(names: Seq<String>, name: Seq<char>) -> Option<int>
    decreases names.len(),
{
    if names.len() == 0 {
        None
    } else if names[0]@ == name {
        Some(0int)
    } else {
        match name_index(names.drop_first(), name) {
            Some(i) => Some(i + 1),
            None => None,
        }
    }
}

/// When nothing before `i` matches, the search resolves at `i` — or fails
/// when nothing at all matches.
proof fn lemma_name_index_first(names: Seq<String>, name: Seq<char>, i: int)
    requires
        0 <= i <= names.len(),
        forall|k: int| 0 <= k < i ==> (#[trigger] names[k])@ != name,
    ensures
        i < names.len() && names[i]@ == name ==> name_index(names, name) == Some(i),
        i == names.len() ==> name_index(names, name) is None,
    decreases i,
{
    if i > 0 {
        lemma_name_index_shift(names, name);
        lemma_name_index_first(names.drop_first(), name, i - 1);
        assert(forall|k: int|
            0 <= k < names.drop_first().len() ==> (#[trigger] names.drop_first()[k]) == names[k
                + 1]);
    }
}

/// Unfolds one step of the search.
proof fn lemma_name_index_shift(names: Seq<String>, name: Seq<char>)
    requires
        names.len() > 0,
        names[0]@ != name,
    ensures
        name_index(names, name) == match name_index(names.drop_first(), name) {
            Some(i) => Some(i + 1),
            None => None::<int>,
        },
{
}

/// Finds the position of the first name equal to `name`.
fn find_name_pos(names: &Vec<String>, name: &str) -> (r: Option<usize>)
    ensures
        match r {
            Some(i) => i < names@.len() && name_index(names@, name@) == Some(i as int),
            None => name_index(names@, name@) is None,
        },
{
    let mut i: usize = 0;
    while i < names.len()
        invariant
            i <= names@.len(),
            forall|k: int| 0 <= k < i ==> (#[trigger] names@[k])@ != name@,
        decreases names@.len() - i,
    {
        if str_eq_str(names[i].as_str(), name) {
            proof {
                lemma_name_index_first(names@, name@, i as int);
            }
            return Some(i);
        }
        i += 1;
    }
    proof {
        lemma_name_index_first(names@, name@, names@.len() as int);
    }
    None
}

impl Skin {
    /// The skin's invariant: its button table is complete and densely
    /// indexed.
    pub open spec fn wf(&self) -> bool {
        self.buttons.wf()
    }

    /// Builds the skin from its parsed element list and the configured
    /// backdrop choice. Succeeds exactly when every declaration is valid,
    /// every one of the twelve buttons is declared, at least one backdrop
    /// is declared, and the configured backdrop name — matched
    /// case-insensitively — is declared (the first backdrop serves when
    /// none is configured). Each table slot holds what the last declaration
    /// of its button declared; nothing is padded in place of a missing
    /// declaration.
    pub fn from_elements(elements: &Vec<RawElement>, wanted_background: Option<&String>) -> (r:
        Result<Skin, SkinError>)
        ensures
            match r {
                Ok(sk) => {
                    let bels = bg_elements(elements@);
                    &&& layout_valid(elements@)
                    &&& sk.wf()
                    &&& (forall|p: Pressed|
                        (#[trigger] last_val(spec_button_pairs(elements@), p)) is Some)
                    &&& (forall|p: Pressed|
                        #[trigger] button_matches(
                            sk.buttons.0@[spec_index_of(p)],
                            last_val(spec_button_pairs(elements@), p).unwrap(),
                        ))
                    &&& sk.available_backgrounds@.len() == bels.len()
                    &&& (forall|i: int|
                        0 <= i < bels.len() ==> (#[trigger] sk.available_backgrounds@[i])@
                            == spec_bg_name(bels[i].attrs@))
                    &&& bels.len() > 0
                    &&& match wanted_background {
                        Some(w) => sk.background.name@ == lower_of(w@) && (exists|i: int|
                            0 <= i < bels.len() && spec_bg_name(#[trigger] bels[i].attrs@)
                                == lower_of(w@) && sk.background.image@ == spec_bg_image(
                                bels[i].attrs@,
                            )),
                        None => sk.background.name@ == spec_bg_name(bels[0].attrs@)
                            && sk.background.image@ == spec_bg_image(bels[0].attrs@),
                    }
                },
                Err(e) => {
                    let bels = bg_elements(elements@);
                    ||| !layout_valid(elements@)
                    ||| (layout_valid(elements@) && bels.len() == 0 && e == SkinError::NoBackground)
                    ||| (layout_valid(elements@) && bels.len() > 0 && match wanted_background {
                        Some(w) => (forall|i: int|
                            0 <= i < bels.len() ==> spec_bg_name(#[trigger] bels[i].attrs@)
                                != lower_of(w@)) && e == SkinError::BackgroundNotFound,
                        None => false,
                    })
                    ||| (layout_valid(elements@) && first_missing_from(
                        spec_button_pairs(elements@),
                        0,
                    ) < 12 && e == SkinError::MissingButton(
                        pressed_of_index(first_missing_from(spec_button_pairs(elements@), 0)),
                    ))
                },
            },
    {
        let ghost bels = bg_elements(elements@);
        let (backgrounds, buttons) = get_layout(elements)?;
        let mut available_backgrounds: Vec<String> = Vec::new();
        let mut i: usize = 0;
        while i < backgrounds.len()
            invariant
                i <= backgrounds@.len(),
                available_backgrounds@.len() == i,
                forall|k: int|
                    0 <= k < i ==> (#[trigger] available_backgrounds@[k])@ == backgrounds@[k].name@,
            decreases backgrounds@.len() - i,
        {
            available_backgrounds.push(backgrounds[i].name.clone());
            i += 1;
        }
        if backgrounds.len() == 0 {
            return Err(SkinError::NoBackground);
        }
        let ghost built = backgrounds@;
        let background = match wanted_background {
            Some(w) => {
                let wanted = lowercase(w.as_str());
                match parse_backgrounds(backgrounds, &wanted) {
                    Some(b) => {
                        proof {
                            lemma_find_background_characterizes(built, lower_of(w@));
                            let i = choose|i: int|
                                0 <= i < built.len() && (#[trigger] built[i]).name@ == lower_of(w@)
                                    && find_background(built, lower_of(w@)) == Some(built[i]) && (
                                forall|j: int|
                                    0 <= j < i ==> (#[trigger] built[j]).name@ != lower_of(w@));
                            assert(spec_bg_name(bels[i].attrs@) == lower_of(w@));
                            assert(b == built[i]);
                            assert(b.image@ == spec_bg_image(bels[i].attrs@));
                        }
                        b
                    },
                    None => {
                        proof {
                            lemma_find_background_characterizes(built, lower_of(w@));
                            assert forall|i: int|
                                0 <= i < bels.len() implies spec_bg_name(
                                #[trigger] bels[i].attrs@,
                            ) != lower_of(w@) by {
                                assert(built[i].name@ != lower_of(w@));
                            }
                        }
                        return Err(SkinError::BackgroundNotFound);
                    },
                }
            },
            None => {
                // the first backdrop in document order
                let mut bgs = backgrounds;
                bgs.remove(0)
            },
        };
        let ghost pairs = buttons@;
        let table = match buttons_map_to_array(buttons) {
            Ok(t) => t,
            Err(e) => {
                proof {
                    lemma_button_pairs_align(elements@);
                    lemma_first_missing_aligned(pairs, spec_button_pairs(elements@));
                }
                return Err(e);
            },
        };
        proof {
            lemma_button_pairs_align(elements@);
            lemma_first_missing_aligned(pairs, spec_button_pairs(elements@));
            lemma_first_missing_done(pairs);
            crate::controller::pressed::lemma_slot_bit_roundtrip();
            assert forall|p: Pressed|
                (#[trigger] last_val(spec_button_pairs(elements@), p)) is Some by {
                lemma_last_val_aligned(pairs, spec_button_pairs(elements@), p);
                assert(p == pressed_of_index(spec_index_of(p)));
                assert(last_val(pairs, p) is Some);
            }
            assert forall|p: Pressed|
                #[trigger] button_matches(
                    table.0@[spec_index_of(p)],
                    last_val(spec_button_pairs(elements@), p).unwrap(),
                ) by {
                lemma_last_val_aligned(pairs, spec_button_pairs(elements@), p);
                assert(p == pressed_of_index(spec_index_of(p)));
                assert(Some(table.0@[spec_index_of(p)]) == last_val(
                    pairs,
                    pressed_of_index(spec_index_of(p)),
                ));
            }
        }
        Ok(Skin { background, buttons: table, available_backgrounds })
    }

    /// Parses the skin document and builds the skin the configuration
    /// describes. A skin that comes out is well formed and has at least one
    /// backdrop to cycle through, whatever the document held.
    pub fn new(document: &str, config: &SkinConfig) -> (r: Result<Skin, SkinError>)
        ensures
            r matches Ok(sk) ==> sk.wf() && sk.available_backgrounds@.len() > 0,
    {
        let elements = match parse_elements(document) {
            Ok(e) => e,
            Err(pe) => {
                return Err(SkinError::Parse(pe));
            },
        };
        Skin::from_elements(&elements, config.skin_background.as_ref())
    }

    /// The backdrop name after the currently selected one, wrapping past
    /// the end of the declared list. The skin itself is not changed: the
    /// caller rebuilds it with the returned name.
    pub fn get_next_background(&self) -> (r: Result<String, SkinError>)
        ensures
            match r {
                Ok(n) => name_index(self.available_backgrounds@, self.background.name@) is Some
                    && n@ == self.available_backgrounds@[spec_next_index(
                    name_index(self.available_backgrounds@, self.background.name@).unwrap(),
                    self.available_backgrounds@.len() as int,
                )]@,
                Err(e) => name_index(self.available_backgrounds@, self.background.name@) is None
                    && e == SkinError::NotFound,
            },
    {
        let pos = match find_name_pos(&self.available_backgrounds, self.background.name.as_str()) {
            Some(i) => i,
            None => {
                return Err(SkinError::NotFound);
            },
        };
        let len = self.available_backgrounds.len();
        let next = (pos + 1) % len;
        Ok(self.available_backgrounds[next].clone())
    }
}

/// Whether an element is a skin root of the recognized device type with a
/// declared name: an opening `skin` tag whose `type` attribute is exactly
/// `snes`.
pub open spec fn is_snes_root(e: RawElement) -> bool {
    &&& e.kind == ElementKind::Open
    &&& e.name@ == "skin"@
    &&& attr_value(e.attrs@, "type"@) == Some("snes"@)
    &&& attr_value(e.attrs@, "name"@) is Some
}

/// The declared skin name, lowercased, of the first recognized skin root —
/// or nothing, when no element is one.
pub open spec fn spec_skin_name(s: Seq<RawElement>) -> Option<Seq<char>>
    decreases s.len(),
{
    if s.len() == 0 {
        None
    } else if is_snes_root(s[0]) {
        Some(lower_of(attr_value(s[0].attrs@, "name"@).unwrap()))
    } else {
        spec_skin_name(s.drop_first())
    }
}

/// Whether the names are in lexicographically nondecreasing order.
pub open spec fn sorted_names(s: Seq<String>) -> bool {
    forall|i: int, j: int| 0 <= i < j < s.len() ==> lex_le((#[trigger] s[i])@, (#[trigger] s[j])@)
}

/// The texts of a name list.
pub open spec fn name_views(s: Seq<String>) -> Seq<Seq<char>> {
    Seq::new(s.len(), |i: int| s[i]@)
}

/// Sorts a name list lexicographically. The result holds exactly the same
/// texts.
fn sort_names(input: Vec<String>) -> (r: Vec<String>)
    ensures
        sorted_names(r@),
        name_views(r@).to_multiset() == name_views(input@).to_multiset(),
        r@.len() == input@.len(),
{
    let ghost input0 = input@;
    let mut rest = input;
    let mut out: Vec<String> = Vec::new();
    proof {
        assert(name_views(out@).to_multiset().add(name_views(rest@).to_multiset())
            =~= name_views(input0).to_multiset());
    }
    while rest.len() > 0
        invariant
            name_views(out@).to_multiset().add(name_views(rest@).to_multiset()) == name_views(
                input0,
            ).to_multiset(),
            out@.len() + rest@.len() == input0.len(),
            sorted_names(out@),
            forall|i: int, j: int|
                0 <= i < out@.len() && 0 <= j < rest@.len() ==> lex_le(
                    (#[trigger] out@[i])@,
                    (#[trigger] rest@[j])@,
                ),
        decreases rest@.len(),
    {
        let ghost out0 = out@;
        let ghost rest0 = rest@;
        let mut best: usize = 0;
        let mut k: usize = 1;
        proof {
            lemma_lex_refl(rest@[0]@);
        }
        while k < rest.len()
            invariant
                rest@ == rest0,
                rest@.len() > 0,
                best < k,
                k <= rest@.len(),
                forall|j: int| 0 <= j < k ==> lex_le(rest@[best as int]@, (#[trigger] rest@[j])@),
            decreases rest@.len() - k,
        {
            if str_le(rest[k].as_str(), rest[best].as_str()) {
                proof {
                    assert forall|j: int| 0 <= j < k + 1 implies lex_le(
                        rest@[k as int]@,
                        (#[trigger] rest@[j])@,
                    ) by {
                        if j < k {
                            lemma_lex_trans(rest@[k as int]@, rest@[best as int]@, rest@[j]@);
                        } else {
                            lemma_lex_refl(rest@[k as int]@);
                        }
                    }
                }
                best = k;
            } else {
                proof {
                    lemma_lex_total(rest@[k as int]@, rest@[best as int]@);
                }
            }
            k += 1;
        }
        let item = rest.remove(best);
        proof {
            assert(name_views(rest@) =~= name_views(rest0).remove(best as int));
            assert(name_views(out@.push(item)) =~= name_views(out0).push(item@));
            assert(name_views(rest0).remove(best as int).to_multiset() =~= name_views(
                rest0,
            ).to_multiset().remove(item@));
            assert(name_views(out0).push(item@).to_multiset() =~= name_views(
                out0,
            ).to_multiset().insert(item@));
            assert(name_views(rest0).to_multiset().contains(item@)) by {
                assert(name_views(rest0)[best as int] == item@);
                assert(name_views(rest0).contains(item@));
            }
            assert(name_views(out0).push(item@).to_multiset().add(
                name_views(rest0).remove(best as int).to_multiset(),
            ) =~= name_views(out0).to_multiset().add(name_views(rest0).to_multiset()));
            assert(forall|j: int|
                0 <= j < rest@.len() ==> #[trigger] rest@[j] == if j < best as int {
                    rest0[j]
                } else {
                    rest0[j + 1]
                });
        }
        out.push(item);
        proof {
            assert(forall|i: int| 0 <= i < out0.len() ==> #[trigger] out@[i] == out0[i]);
            assert(out@[out0.len() as int] == item);
        }
    }
    proof {
        assert(name_views(rest@).to_multiset() =~= Multiset::<Seq<char>>::empty()) by {
            assert(name_views(rest@).len() == 0);
            assert(name_views(rest@).to_multiset().len() == 0);
            if name_views(rest@).to_multiset().len() > 0 {
                let x = name_views(rest@).to_multiset().choose();
                assert(name_views(rest@).to_multiset().contains(x));
            }
        }
        assert(name_views(out@).to_multiset().add(name_views(rest@).to_multiset()) =~= name_views(
            out@,
        ).to_multiset());
    }
    out
}

/// The discovered catalog — the sorted names of every valid skin — and the
/// currently loaded skin. The catalog is rebuilt only on refresh; cycling
/// through it is pure lookup.
#[derive(Debug)]
pub struct SkinData {
    pub current_skin: Skin,
    pub available_skins: Vec<String>,
}

impl SkinData {
    /// Pairs an already loaded skin with its discovered catalog.
    pub fn new(current_skin: Skin, available_skins: Vec<String>) -> (r: SkinData)
        ensures
            r.current_skin == current_skin,
            r.available_skins == available_skins,
    {
        SkinData { current_skin, available_skins }
    }

    /// Walks the parsed elements of a skin description looking for a
    /// recognized skin root, and yields its declared name, lowercased.
    pub fn validate_elements(elements: &Vec<RawElement>) -> (r: Option<String>)
        ensures
            match r {
                Some(n) => spec_skin_name(elements@) == Some(n@),
                None => spec_skin_name(elements@) is None,
            },
    {
        let ghost all = elements@;
        let mut i: usize = 0;
        proof {
            assert(all.skip(0) =~= all);
        }
        while i < elements.len()
            invariant
                i <= all.len(),
                elements@ == all,
                spec_skin_name(all) == spec_skin_name(all.skip(i as int)),
            decreases all.len() - i,
        {
            let e = &elements[i];
            proof {
                assert(all.skip(i as int)[0] == all[i as int]);
                assert(all.skip(i as int).drop_first() =~= all.skip(i as int + 1));
            }
            if e.kind == ElementKind::Open && str_eq_str(e.name.as_str(), "skin") {
                let type_matches = match crate::skins::markup::find_attr(&e.attrs, "type") {
                    Some(v) => str_eq_str(v.as_str(), "snes"),
                    None => false,
                };
                if type_matches {
                    match crate::skins::markup::find_attr(&e.attrs, "name") {
                        Some(v) => {
                            return Some(lowercase(v.as_str()));
                        },
                        None => {},
                    }
                }
            }
            i += 1;
        }
        None
    }

    /// Reads a skin description looking only for its root element's device
    /// type and declared name: the name, lowercased, comes back exactly
    /// when the type is the one recognized literal. A malformed document
    /// yields nothing — discovery is best-effort, never an error.
    pub fn validate_skin_source(document: &str) -> (r: Option<String>) {
        match parse_elements(document) {
            Ok(elements) => SkinData::validate_elements(&elements),
            Err(_) => None,
        }
    }

    /// Discovers the valid skins among directory entries, each a directory
    /// name paired with its skin description's text where one could be
    /// read. An entry enters the catalog exactly when its description
    /// validates; what enters is the declared skin name, not the
    /// directory's. The catalog comes out sorted.
    pub fn get_available_skins(entries: &Vec<(String, Option<String>)>) -> (r: Vec<String>)
        ensures
            sorted_names(r@),
    {
        let mut found: Vec<String> = Vec::new();
        let mut i: usize = 0;
        while i < entries.len()
            decreases entries@.len() - i,
        {
            match &entries[i].1 {
                Some(text) => {
                    match SkinData::validate_skin_source(text.as_str()) {
                        Some(name) => found.push(name),
                        None => {},
                    }
                },
                None => {},
            }
            i += 1;
        }
        sort_names(found)
    }

    /// Finds the current skin's position in the sorted catalog.
    pub fn get_current_skin_index(&self, skin_name: &String) -> (r: Result<usize, SkinError>)
        ensures
            match r {
                Ok(i) => i < self.available_skins@.len() && name_index(
                    self.available_skins@,
                    skin_name@,
                ) == Some(i as int),
                Err(e) => name_index(self.available_skins@, skin_name@) is None && e
                    == SkinError::NotFound,
            },
    {
        match find_name_pos(&self.available_skins, skin_name.as_str()) {
            Some(i) => Ok(i),
            None => Err(SkinError::NotFound),
        }
    }

    /// The catalog name after the given one, wrapping past the end. The
    /// catalog is not changed: the caller loads the returned skin.
    pub fn get_next_skin(&self, skin_name: &String) -> (r: Result<String, SkinError>)
        ensures
            match r {
                Ok(n) => name_index(self.available_skins@, skin_name@) is Some && n@
                    == self.available_skins@[spec_next_index(
                    name_index(self.available_skins@, skin_name@).unwrap(),
                    self.available_skins@.len() as int,
                )]@,
                Err(e) => name_index(self.available_skins@, skin_name@) is None && e
                    == SkinError::NotFound,
            },
    {
        let pos = self.get_current_skin_index(skin_name)?;
        let len = self.available_skins.len();
        let next = (pos + 1) % len;
        Ok(self.available_skins[next].clone())
    }

    /// The catalog name before the given one, wrapping past the start. The
    /// catalog is not changed: the caller loads the returned skin.
    pub fn get_previous_skin(&self, skin_name: &String) -> (r: Result<String, SkinError>)
        ensures
            match r {
                Ok(n) => name_index(self.available_skins@, skin_name@) is Some && n@
                    == self.available_skins@[spec_prev_index(
                    name_index(self.available_skins@, skin_name@).unwrap(),
                    self.available_skins@.len() as int,
                )]@,
                Err(e) => name_index(self.available_skins@, skin_name@) is None && e
                    == SkinError::NotFound,
            },
    {
        let pos = self.get_current_skin_index(skin_name)?;
        let len = self.available_skins.len();
        let prev = if pos == 0 {
            len - 1
        } else {
            pos - 1
        };
        proof {
            let i = pos as int;
            let n = len as int;
            if i == 0 {
                vstd::arithmetic::div_mod::lemma_small_mod((n - 1) as nat, n as nat);
            } else {
                vstd::arithmetic::div_mod::lemma_mod_add_multiples_vanish(i - 1, n);
                vstd::arithmetic::div_mod::lemma_small_mod((i - 1) as nat, n as nat);
            }
        }
        Ok(self.available_skins[prev].clone())
    }
}

/// A keyed sequence and its aligned mirror miss the same first slot.
proof fn lemma_first_missing_aligned(a: Seq<(Pressed, Button)>, b: Seq<(Pressed, RawElement)>)
    requires
        a.len() == b.len(),
        forall|i: int|
            0 <= i < a.len() ==> (#[trigger] a[i]).0 == b[i].0 && button_matches(a[i].1, b[i].1),
    ensures
        forall|j: int|
            0 <= j <= 12 ==> #[trigger] first_missing_from(a, j) == first_missing_from(b, j),
{
    assert forall|j: int|
        0 <= j <= 12 implies #[trigger] first_missing_from(a, j) == first_missing_from(b, j) by {
        lemma_first_missing_aligned_from(a, b, j);
    }
}

/// The scan agrees slot by slot on aligned sequences.
proof fn lemma_first_missing_aligned_from(
    a: Seq<(Pressed, Button)>,
    b: Seq<(Pressed, RawElement)>,
    j: int,
)
    requires
        0 <= j <= 12,
        a.len() == b.len(),
        forall|i: int|
            0 <= i < a.len() ==> (#[trigger] a[i]).0 == b[i].0 && button_matches(a[i].1, b[i].1),
    ensures
        first_missing_from(a, j) == first_missing_from(b, j),
    decreases 12 - j,
{
    if j < 12 {
        lemma_last_val_aligned(a, b, pressed_of_index(j));
        lemma_first_missing_aligned_from(a, b, j + 1);
    }
}

} // verus!
