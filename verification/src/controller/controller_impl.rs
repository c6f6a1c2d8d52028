//! The controller address book: every layout parsed from the declarative
//! document, kept in name-sorted order, with a cursor that cycles over the
//! sorted names.

pub use crate::configuration::ControllerConfig;
use crate::controller::controller_addresses::ControllerAddresses;
use crate::controller::layout_json::parse_layouts;
use crate::errors::BookError;
use crate::textparse::{lemma_lex_refl, lemma_lex_total, lemma_lex_trans, lex_le, str_eq_str, str_le};
use vstd::multiset::Multiset;
use vstd::prelude::*;

verus! {

broadcast use vstd::seq_lib::group_to_multiset_ensures;

/// Whether the entries carry pairwise distinct layout names.
pub open spec fn distinct_keys(s: Seq<(String, ControllerAddresses)>) -> bool {
    forall|i: int, j: int|
        0 <= i < j < s.len() ==> (#[trigger] s[i]).0@ != (#[trigger] s[j]).0@
}

/// Whether the entries are in lexicographically nondecreasing name order.
pub open spec fn sorted_by_name(s: Seq<(String, ControllerAddresses)>) -> bool {
    forall|i: int, j: int|
        0 <= i < j < s.len() ==> lex_le((#[trigger] s[i]).0@, (#[trigger] s[j]).0@)
}

/// The addresses of the first entry named `name`, if any.
pub open spec fn lookup_addr(
    s: Seq<(String, ControllerAddresses)>,
    name: Seq<char>,
) -> Option<ControllerAddresses>
    decreases s.len(),
{
    if s.len() == 0 {
        None
    } else if s[0].0@ == name {
        Some(s[0].1)
    } else {
        lookup_addr(s.drop_first(), name)
    }
}

/// Whether some entry is named `name`.
pub open spec fn has_key(s: Seq<(String, ControllerAddresses)>, name: Seq<char>) -> bool {
    lookup_addr(s, name) is Some
}

/// Lookup succeeds exactly on the names present among the entries.
pub proof fn lemma_lookup_contains(s: Seq<(String, ControllerAddresses)>, name: Seq<char>)
    ensures
        has_key(s, name) <==> exists|i: int| 0 <= i < s.len() && (#[trigger] s[i]).0@ == name,
    decreases s.len(),
{
    if s.len() > 0 {
        lemma_lookup_contains(s.drop_first(), name);
        assert(forall|i: int|
            0 <= i < s.drop_first().len() ==> #[trigger] s.drop_first()[i] == s[i + 1]);
        if s[0].0@ == name {
            assert((exists|i: int| 0 <= i < s.len() && (#[trigger] s[i]).0@ == name)) by {
                assert(s[0].0@ == name);
            }
        } else if has_key(s, name) {
            let i = choose|i: int| 0 <= i < s.drop_first().len() && (#[trigger] s.drop_first()[i]).0@
                == name;
            assert(s[i + 1].0@ == name);
        } else if exists|i: int| 0 <= i < s.len() && (#[trigger] s[i]).0@ == name {
            let i = choose|i: int| 0 <= i < s.len() && (#[trigger] s[i]).0@ == name;
            assert(i >= 1);
            assert(s.drop_first()[i - 1].0@ == name);
        }
    }
}

/// With distinct names, looking an entry's own name up yields that entry's
/// addresses.
pub proof fn lemma_lookup_at_index(s: Seq<(String, ControllerAddresses)>, i: int)
    requires
        distinct_keys(s),
        0 <= i < s.len(),
    ensures
        lookup_addr(s, s[i].0@) == Some(s[i].1),
    decreases s.len(),
{
    if i > 0 {
        assert(forall|k: int|
            0 <= k < s.drop_first().len() ==> #[trigger] s.drop_first()[k] == s[k + 1]);
        lemma_lookup_at_index(s.drop_first(), i - 1);
    }
}

/// What lookup yields is the addresses of some entry bearing the name.
pub proof fn lemma_lookup_index(s: Seq<(String, ControllerAddresses)>, name: Seq<char>)
    requires
        has_key(s, name),
    ensures
        exists|i: int|
            0 <= i < s.len() && (#[trigger] s[i]).0@ == name && Some(s[i].1) == lookup_addr(
                s,
                name,
            ),
    decreases s.len(),
{
    if s.len() > 0 {
        if s[0].0@ == name {
            assert(s[0].0@ == name && Some(s[0].1) == lookup_addr(s, name));
        } else {
            lemma_lookup_index(s.drop_first(), name);
            let i = choose|i: int|
                0 <= i < s.drop_first().len() && (#[trigger] s.drop_first()[i]).0@ == name && Some(
                    s.drop_first()[i].1,
                ) == lookup_addr(s.drop_first(), name);
            assert(s.drop_first()[i] == s[i + 1]);
            assert(s[i + 1].0@ == name && Some(s[i + 1].1) == lookup_addr(s, name));
        }
    }
}

/// Two entry sequences holding the same entries have the same names, and
/// where the names are distinct, lookup agrees on them.
pub proof fn lemma_lookup_permutation(
    a: Seq<(String, ControllerAddresses)>,
    b: Seq<(String, ControllerAddresses)>,
    name: Seq<char>,
)
    requires
        a.to_multiset() == b.to_multiset(),
        distinct_keys(b),
    ensures
        has_key(a, name) == has_key(b, name),
        has_key(a, name) ==> lookup_addr(a, name) == lookup_addr(b, name),
{
    lemma_lookup_contains(a, name);
    lemma_lookup_contains(b, name);
    if has_key(a, name) {
        lemma_lookup_index(a, name);
        let i = choose|i: int|
            0 <= i < a.len() && (#[trigger] a[i]).0@ == name && Some(a[i].1) == lookup_addr(
                a,
                name,
            );
        let p = a[i];
        assert(a.contains(p));
        assert(a.to_multiset().count(p) > 0);
        assert(b.to_multiset().count(p) > 0);
        assert(b.contains(p));
        let j = choose|j: int| 0 <= j < b.len() && b[j] == p;
        lemma_lookup_at_index(b, j);
    }
    if has_key(b, name) {
        let j = choose|j: int| 0 <= j < b.len() && (#[trigger] b[j]).0@ == name;
        let p = b[j];
        assert(b.contains(p));
        assert(b.to_multiset().count(p) > 0);
        assert(a.to_multiset().count(p) > 0);
        assert(a.contains(p));
        let i = choose|i: int| 0 <= i < a.len() && a[i] == p;
        assert(a[i].0@ == name);
    }
}

/// Whether no name occurs both among `a` and among `b`.
pub open spec fn cross_distinct(
    a: Seq<(String, ControllerAddresses)>,
    b: Seq<(String, ControllerAddresses)>,
) -> bool {
    forall|i: int, j: int|
        0 <= i < a.len() && 0 <= j < b.len() ==> (#[trigger] a[i]).0@ != (#[trigger] b[j]).0@
}

/// Sorts layout entries by name. The result holds exactly the same entries,
/// in nondecreasing name order; pairwise distinct names stay distinct.
fn sort_layouts(input: Vec<(String, ControllerAddresses)>) -> (r: Vec<
    (String, ControllerAddresses),
>)
    ensures
        sorted_by_name(r@),
        r@.to_multiset() == input@.to_multiset(),
        r@.len() == input@.len(),
        distinct_keys(input@) ==> distinct_keys(r@),
{
    let ghost input0 = input@;
    let mut rest = input;
    let mut out: Vec<(String, ControllerAddresses)> = Vec::new();
    proof {
        assert(out@.to_multiset().add(rest@.to_multiset()) =~= input0.to_multiset());
    }
    while rest.len() > 0
        invariant
            out@.to_multiset().add(rest@.to_multiset()) == input0.to_multiset(),
            out@.len() + rest@.len() == input0.len(),
            sorted_by_name(out@),
            forall|i: int, j: int|
                0 <= i < out@.len() && 0 <= j < rest@.len() ==> lex_le(
                    (#[trigger] out@[i]).0@,
                    (#[trigger] rest@[j]).0@,
                ),
            distinct_keys(input0) ==> distinct_keys(out@) && distinct_keys(rest@)
                && cross_distinct(out@, rest@),
        decreases rest@.len(),
    {
        let ghost out0 = out@;
        let ghost rest0 = rest@;
        let mut best: usize = 0;
        let mut k: usize = 1;
        proof {
            lemma_lex_refl(rest@[0].0@);
        }
        while k < rest.len()
            invariant
                rest@ == rest0,
                rest@.len() > 0,
                best < k,
                k <= rest@.len(),
                forall|j: int| 0 <= j < k ==> lex_le(rest@[best as int].0@, (#[trigger] rest@[j]).0@),
            decreases rest@.len() - k,
        {
            if str_le(rest[k].0.as_str(), rest[best].0.as_str()) {
                proof {
                    assert forall|j: int| 0 <= j < k + 1 implies lex_le(
                        rest@[k as int].0@,
                        (#[trigger] rest@[j]).0@,
                    ) by {
                        if j < k {
                            lemma_lex_trans(rest@[k as int].0@, rest@[best as int].0@, rest@[j].0@);
                        } else {
                            lemma_lex_refl(rest@[k as int].0@);
                        }
                    }
                }
                best = k;
            } else {
                proof {
                    lemma_lex_total(rest@[k as int].0@, rest@[best as int].0@);
                }
            }
            k += 1;
        }
        let item = rest.remove(best);
        proof {
            assert(rest@ =~= rest0.remove(best as int));
            assert(rest0.remove(best as int).to_multiset() =~= rest0.to_multiset().remove(item));
            assert(out0.push(item).to_multiset() =~= out0.to_multiset().insert(item));
            assert(rest0.to_multiset().contains(item)) by {
                assert(rest0.contains(item));
            }
            assert(out0.push(item).to_multiset().add(rest0.remove(best as int).to_multiset())
                =~= out0.to_multiset().add(rest0.to_multiset()));
            // every surviving entry of rest was already in rest
            assert(forall|j: int|
                0 <= j < rest@.len() ==> #[trigger] rest@[j] == if j < best as int {
                    rest0[j]
                } else {
                    rest0[j + 1]
                });
        }
        out.push(item);
        proof {
            assert(forall|i: int|
                0 <= i < out0.len() ==> #[trigger] out@[i] == out0[i]);
            assert(out@[out0.len() as int] == item);
        }
    }
    proof {
        assert(rest@.to_multiset() =~= Multiset::<(String, ControllerAddresses)>::empty()) by {
            assert(rest@.to_multiset().len() == rest@.len());
            if rest@.to_multiset().len() > 0 {
                let x = rest@.to_multiset().choose();
                assert(rest@.to_multiset().contains(x));
            }
        }
        assert(out@.to_multiset().add(rest@.to_multiset()) =~= out@.to_multiset());
    }
    out
}

/// The parsed set of layouts: each name with its pair of register
/// addresses.
#[derive(Debug, Clone)]
pub struct ControllerLayouts {
    pub layouts: Vec<(String, ControllerAddresses)>,
}

/// The address book: the layouts in name-sorted order, the sorted name
/// list, and the cursor with its resolved layout. Built once from the
/// declarative document; immutable thereafter except for the cursor, which
/// moves only by explicit next/previous navigation.
#[derive(Debug)]
pub struct ControllerData {
    pub layout_name: String,
    pub available_addresses: ControllerLayouts,
    pub available_layouts: Vec<String>,
    pub current_addresses: ControllerAddresses,
    pub current_layout_index: usize,
}

/// The position after `i` when stepping forward cyclically among `n`.
pub open spec fn spec_next_index(i: int, n: int) -> int {
    (i + 1) % n
}

/// The position before `i` when stepping backward cyclically among `n`.
pub open spec fn spec_prev_index(i: int, n: int) -> int {
    (i + n - 1) % n
}

/// Finds the first entry named `name`.
fn find_addresses(layouts: &Vec<(String, ControllerAddresses)>, name: &str) -> (r: Option<
    ControllerAddresses,
>)
    ensures
        r == lookup_addr(layouts@, name@),
{
    let mut i: usize = 0;
    proof {
        assert(layouts@.skip(0) =~= layouts@);
    }
    while i < layouts.len()
        invariant
            i <= layouts@.len(),
            lookup_addr(layouts@, name@) == lookup_addr(layouts@.skip(i as int), name@),
        decreases layouts@.len() - i,
    {
        let hit = str_eq_str(layouts[i].0.as_str(), name);
        proof {
            assert(layouts@.skip(i as int)[0] == layouts@[i as int]);
            assert(layouts@.skip(i as int).drop_first() =~= layouts@.skip(i as int + 1));
        }
        if hit {
            return Some(layouts[i].1);
        }
        i += 1;
    }
    None
}

/// Finds the position of `name` in the name list.
fn find_name_index(names: &Vec<String>, name: &str) -> (r: Option<usize>)
    ensures
        match r {
            Some(i) => i < names@.len() && names@[i as int]@ == name@,
            None => forall|i: int| 0 <= i < names@.len() ==> (#[trigger] names@[i])@ != name@,
        },
{
    let mut i: usize = 0;
    while i < names.len()
        invariant
            i <= names@.len(),
            forall|k: int| 0 <= k < i ==> (#[trigger] names@[k])@ != name@,
        decreases names@.len() - i,
    {
        if str_eq_str(names[i].as_str(), name) {
            return Some(i);
        }
        i += 1;
    }
    None
}

impl ControllerData {
    /// The book's internal invariant: entries sorted by distinct names with
    /// 24-bit addresses, the name list mirroring them, and the cursor
    /// resolved to the entry it names.
    pub open spec fn wf(&self) -> bool {
        let pairs = self.available_addresses.layouts@;
        &&& distinct_keys(pairs)
        &&& sorted_by_name(pairs)
        &&& (forall|i: int| 0 <= i < pairs.len() ==> (#[trigger] pairs[i]).1.wf())
        &&& self.available_layouts@.len() == pairs.len()
        &&& (forall|i: int|
            0 <= i < pairs.len() ==> (#[trigger] self.available_layouts@[i])@ == pairs[i].0@)
        &&& pairs.len() > 0
        &&& self.current_layout_index < pairs.len()
        &&& self.layout_name@ == pairs[self.current_layout_index as int].0@
        &&& lookup_addr(pairs, self.layout_name@) == Some(self.current_addresses)
    }

    /// Builds the book from parsed layout entries and the configured
    /// starting layout name: the entries are sorted by name, and the cursor
    /// starts on the configured name. Succeeds exactly when that name is
    /// among the entries; otherwise nothing of the book survives.
    pub fn build_book(layouts: ControllerLayouts, start: &str) -> (r: Result<
        ControllerData,
        BookError,
    >)
        requires
            distinct_keys(layouts.layouts@),
            forall|i: int| 0 <= i < layouts.layouts@.len() ==> (#[trigger] layouts.layouts@[i]).1.wf(),
        ensures
            match r {
                Ok(d) => has_key(layouts.layouts@, start@) && d.wf() && d.layout_name@ == start@
                    && d.available_addresses.layouts@.to_multiset()
                    == layouts.layouts@.to_multiset() && lookup_addr(
                    d.available_addresses.layouts@,
                    start@,
                ) == lookup_addr(layouts.layouts@, start@) && Some(d.current_addresses)
                    == lookup_addr(layouts.layouts@, start@),
                Err(e) => !has_key(layouts.layouts@, start@) && e == BookError::LayoutNotFound,
            },
    {
        let ghost pairs0 = layouts.layouts@;
        let sorted = sort_layouts(layouts.layouts);
        proof {
            lemma_lookup_permutation(pairs0, sorted@, start@);
            assert forall|i: int| 0 <= i < sorted@.len() implies (#[trigger] sorted@[i]).1.wf() by {
                let p = sorted@[i];
                assert(sorted@.contains(p));
                assert(sorted@.to_multiset().count(p) > 0);
                assert(pairs0.to_multiset().count(p) > 0);
                assert(pairs0.contains(p));
                let j = choose|j: int| 0 <= j < pairs0.len() && pairs0[j] == p;
            }
        }
        let current = match find_addresses(&sorted, start) {
            Some(a) => a,
            None => {
                return Err(BookError::LayoutNotFound);
            },
        };
        let mut names: Vec<String> = Vec::new();
        let mut i: usize = 0;
        while i < sorted.len()
            invariant
                i <= sorted@.len(),
                names@.len() == i,
                forall|k: int| 0 <= k < i ==> (#[trigger] names@[k])@ == sorted@[k].0@,
            decreases sorted@.len() - i,
        {
            names.push(sorted[i].0.clone());
            i += 1;
        }
        let idx = match find_name_index(&names, start) {
            Some(j) => j,
            None => {
                proof {
                    lemma_lookup_contains(sorted@, start@);
                    let w = choose|w: int| 0 <= w < sorted@.len() && (#[trigger] sorted@[w]).0@
                        == start@;
                    assert(names@[w]@ == start@);
                }
                // unreachable: the name was found among the entries above
                return Err(BookError::LayoutNotFound);
            },
        };
        let layout_name = names[idx].clone();
        Ok(
            ControllerData {
                layout_name,
                available_addresses: ControllerLayouts { layouts: sorted },
                available_layouts: names,
                current_addresses: current,
                current_layout_index: idx,
            },
        )
    }

    /// Parses the layout document and builds the address book, starting on
    /// the layout the configuration names. Every outcome of the parse is
    /// covered: a built book is well formed, carries the configured name,
    /// and resolves it to that layout's addresses.
    pub fn new(document: &str, config: &ControllerConfig) -> (r: Result<ControllerData, BookError>)
        ensures
            match r {
                Ok(d) => d.wf() && d.layout_name@ == config.layout@ && Some(d.current_addresses)
                    == lookup_addr(d.available_addresses.layouts@, config.layout@),
                Err(e) => e is Parse || e is LayoutNotFound,
            },
    {
        let book = parse_layouts(document)?;
        ControllerData::build_book(book, config.layout.as_str())
    }

    /// Moves the cursor one step forward, wrapping past the end, and
    /// re-resolves the layout now named by the cursor. The book itself is
    /// unchanged.
    pub fn get_next_layout(&mut self)
        requires
            old(self).wf(),
        ensures
            final (self).wf(),
            final (self).available_addresses == old(self).available_addresses,
            final (self).available_layouts == old(self).available_layouts,
            final (self).current_layout_index as int == spec_next_index(
                old(self).current_layout_index as int,
                old(self).available_layouts@.len() as int,
            ),
            final (self).layout_name@ == final (self).available_layouts@[final (self).current_layout_index as int]@,
            Some(final (self).current_addresses) == lookup_addr(
                old(self).available_addresses.layouts@,
                final (self).layout_name@,
            ),
    {
        let len = self.available_layouts.len();
        let idx = (self.current_layout_index + 1) % len;
        self.set_cursor(idx);
    }

    /// Moves the cursor one step backward, wrapping past the start, and
    /// re-resolves the layout now named by the cursor. The book itself is
    /// unchanged.
    pub fn get_prev_layout(&mut self)
        requires
            old(self).wf(),
        ensures
            final (self).wf(),
            final (self).available_addresses == old(self).available_addresses,
            final (self).available_layouts == old(self).available_layouts,
            final (self).current_layout_index as int == spec_prev_index(
                old(self).current_layout_index as int,
                old(self).available_layouts@.len() as int,
            ),
            final (self).layout_name@ == final (self).available_layouts@[final (self).current_layout_index as int]@,
            Some(final (self).current_addresses) == lookup_addr(
                old(self).available_addresses.layouts@,
                final (self).layout_name@,
            ),
    {
        let len = self.available_layouts.len();
        let idx = if self.current_layout_index == 0 {
            len - 1
        } else {
            self.current_layout_index - 1
        };
        proof {
            let i = self.current_layout_index as int;
            let n = len as int;
            if i == 0 {
                vstd::arithmetic::div_mod::lemma_small_mod((n - 1) as nat, n as nat);
            } else {
                vstd::arithmetic::div_mod::lemma_mod_add_multiples_vanish(i - 1, n);
                vstd::arithmetic::div_mod::lemma_small_mod((i - 1) as nat, n as nat);
            }
        }
        self.set_cursor(idx);
    }

    /// Places the cursor on a position and re-resolves its layout.
    fn set_cursor(&mut self, idx: usize)
        requires
            old(self).wf(),
            idx < old(self).available_layouts@.len(),
        ensures
            final (self).wf(),
            final (self).available_addresses == old(self).available_addresses,
            final (self).available_layouts == old(self).available_layouts,
            final (self).current_layout_index == idx,
            final (self).layout_name@ == final (self).available_layouts@[idx as int]@,
            Some(final (self).current_addresses) == lookup_addr(
                old(self).available_addresses.layouts@,
                final (self).layout_name@,
            ),
    {
        self.current_layout_index = idx;
        let name = self.available_layouts[idx].clone();
        self.layout_name = name;
        proof {
            lemma_lookup_at_index(self.available_addresses.layouts@, idx as int);
        }
        let found = find_addresses(&self.available_addresses.layouts, self.layout_name.as_str());
        self.current_addresses = found.unwrap();
    }
}

/// Cyclic navigation inverts: stepping forward then backward from any
/// position returns to it, and so does stepping backward then forward.
pub proof fn lemma_next_prev_inverse(i: int, n: int)
    requires
        0 <= i < n,
    ensures
        spec_prev_index(spec_next_index(i, n), n) == i,
        spec_next_index(spec_prev_index(i, n), n) == i,
{
    lemma_next_index_concrete(i, n);
    lemma_prev_index_concrete(i, n);
    if i + 1 < n {
        lemma_prev_index_concrete(i + 1, n);
    } else {
        lemma_prev_index_concrete(0, n);
    }
    if i == 0 {
        lemma_next_index_concrete(n - 1, n);
    } else {
        lemma_next_index_concrete(i - 1, n);
    }
}

/// Stepping forward from `i` lands on `i + 1`, or on 0 past the end.
pub proof fn lemma_next_index_concrete(i: int, n: int)
    requires
        0 <= i < n,
    ensures
        spec_next_index(i, n) == if i + 1 < n {
            i + 1
        } else {
            0
        },
{
    if i + 1 < n {
        vstd::arithmetic::div_mod::lemma_small_mod((i + 1) as nat, n as nat);
    } else {
        vstd::arithmetic::div_mod::lemma_mod_self_0(n);
    }
}

/// Stepping backward from `i` lands on `i - 1`, or on `n - 1` past the
/// start.
pub proof fn lemma_prev_index_concrete(i: int, n: int)
    requires
        0 <= i < n,
    ensures
        spec_prev_index(i, n) == if i == 0 {
            n - 1
        } else {
            i - 1
        },
{
    if i == 0 {
        vstd::arithmetic::div_mod::lemma_small_mod((n - 1) as nat, n as nat);
    } else {
        vstd::arithmetic::div_mod::lemma_mod_add_multiples_vanish(i - 1, n);
        vstd::arithmetic::div_mod::lemma_small_mod((i - 1) as nat, n as nat);
    }
}

/// The position reached after `k` forward steps from `i`.
pub open spec fn spec_next_k(i: int, n: int, k: nat) -> int
    decreases k,
{
    if k == 0 {
        i
    } else {
        spec_next_index(spec_next_k(i, n, (k - 1) as nat), n)
    }
}

/// `k` forward steps from `i` land on `(i + k) mod n`.
pub proof fn lemma_next_k_mod(i: int, n: int, k: nat)
    requires
        0 <= i < n,
    ensures
        spec_next_k(i, n, k) == (i + k) % n,
    decreases k,
{
    if k == 0 {
        vstd::arithmetic::div_mod::lemma_small_mod(i as nat, n as nat);
    } else {
        lemma_next_k_mod(i, n, (k - 1) as nat);
        let x = i + k - 1;
        vstd::arithmetic::div_mod::lemma_add_mod_noop(x, 1, n);
        if n == 1 {
            vstd::arithmetic::div_mod::lemma_mod_self_0(1);
        } else {
            vstd::arithmetic::div_mod::lemma_small_mod(1nat, n as nat);
        }
    }
}

/// Repeating the forward step exactly as many times as there are layouts
/// returns to the starting position.
pub proof fn lemma_full_cycle(i: int, n: int)
    requires
        0 <= i < n,
    ensures
        spec_next_k(i, n, n as nat) == i,
{
    lemma_next_k_mod(i, n, n as nat);
    vstd::arithmetic::div_mod::lemma_mod_add_multiples_vanish(i, n);
    vstd::arithmetic::div_mod::lemma_small_mod(i as nat, n as nat);
}

} // verus!
