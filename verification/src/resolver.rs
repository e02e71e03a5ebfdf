//! The key sequence resolver: from a symbol to the keys that type it.
//!
//! Resolution inverts the forward table. It finds the first key and level
//! that yield the symbol, asks which modifier combinations select that level,
//! takes the first combination whose modifiers can all be held by a known
//! key, and returns those keys, in ascending order of modifier index,
//! together with the data key.
use crate::keymap::{mask_views, KeyTable, KeyView, KeymapState, KeymapView};
use crate::modset::{ascending, lemma_ascending, ModSet};
use std::collections::HashMap;
use vstd::prelude::*;

verus! {

broadcast use vstd::std_specs::hash::group_hash_axioms;

/// How many modifier combinations of a level the resolver looks at.
pub const MAX_ALTERNATIVES: usize = 4;

/// Some level of some key yields `sym`.
pub open spec fn symbol_present(keys: Seq<KeyView>, sym: u32) -> bool {
    exists|k: int, l: int|
        0 <= k < keys.len() && 0 <= l < keys[k].levels.len()
            && (#[trigger] keys[k].levels[l]).yields(sym)
}

/// Level `l` of key `k` is the first place, in table order, that yields
/// `sym`: no earlier key does at any level, and no lower level of key `k`.
pub open spec fn first_match(keys: Seq<KeyView>, sym: u32, k: int, l: int) -> bool {
    &&& 0 <= k < keys.len()
    &&& 0 <= l < keys[k].levels.len()
    &&& keys[k].levels[l].yields(sym)
    &&& forall|l2: int| 0 <= l2 < l ==> !(#[trigger] keys[k].levels[l2]).yields(sym)
    &&& forall|k2: int, l2: int|
        0 <= k2 < k && 0 <= l2 < keys[k2].levels.len() ==> !(#[trigger] keys[k2].levels[l2]).yields(
            sym,
        )
}

/// Every modifier of the combination `mask` has a key in `table`.
pub open spec fn usable(mask: Set<nat>, table: Map<u8, u32>) -> bool {
    forall|m: nat| #[trigger] mask.contains(m) ==> m < 32 && table.contains_key(m as u8)
}

/// Combination `a` is the first usable one among the combinations that the
/// resolver looks at.
pub open spec fn first_usable(masks: Seq<Set<nat>>, table: Map<u8, u32>, a: int) -> bool {
    &&& 0 <= a < masks.len()
    &&& a < MAX_ALTERNATIVES
    &&& usable(masks[a], table)
    &&& forall|b: int| 0 <= b < a ==> !usable(#[trigger] masks[b], table)
}

/// The keys that hold the modifiers of `mask`, by ascending modifier index.
pub open spec fn plan_mods(mask: Set<nat>, table: Map<u8, u32>) -> Seq<u32> {
    ascending(mask, 32).map_values(|m: nat| table[m as u8])
}

impl KeymapView {
    /// The plan for `sym`: the modifier keys to hold, in press order, and the
    /// data key. `None` where no level yields `sym`, or where none of the
    /// combinations looked at for the matching level is usable.
    pub open spec fn resolution(self, sym: u32) -> Option<(Seq<u32>, u32)> {
        if exists|k: int, l: int| first_match(self.keys, sym, k, l) {
            let (k, l) = choose|k: int, l: int| first_match(self.keys, sym, k, l);
            let masks = self.keys[k].levels[l].masks;
            if exists|a: int| first_usable(masks, self.modifier_keycode, a) {
                let a = choose|a: int| first_usable(masks, self.modifier_keycode, a);
                Some((plan_mods(masks[a], self.modifier_keycode), self.keys[k].keycode))
            } else {
                None
            }
        } else {
            None
        }
    }
}

/// A symbol has at most one first match.
pub proof fn lemma_first_match_unique(
    keys: Seq<KeyView>,
    sym: u32,
    k1: int,
    l1: int,
    k2: int,
    l2: int,
)
    requires
        first_match(keys, sym, k1, l1),
        first_match(keys, sym, k2, l2),
    ensures
        k1 == k2,
        l1 == l2,
{
    if k1 < k2 {
        assert(!keys[k1].levels[l1].yields(sym));
    } else if k2 < k1 {
        assert(!keys[k2].levels[l2].yields(sym));
    } else if l1 < l2 {
        assert(!keys[k1].levels[l1].yields(sym));
    } else if l2 < l1 {
        assert(!keys[k2].levels[l2].yields(sym));
    }
}

/// A level has at most one first usable combination.
pub proof fn lemma_first_usable_unique(
    masks: Seq<Set<nat>>,
    table: Map<u8, u32>,
    a1: int,
    a2: int,
)
    requires
        first_usable(masks, table, a1),
        first_usable(masks, table, a2),
    ensures
        a1 == a2,
{
    if a1 < a2 {
        assert(!usable(masks[a1], table));
    } else if a2 < a1 {
        assert(!usable(masks[a2], table));
    }
}

/// Key `k` has a level that yields `sym`.
pub open spec fn key_yields(keys: Seq<KeyView>, sym: u32, k: int) -> bool {
    0 <= k < keys.len() && exists|l: int|
        0 <= l < keys[k].levels.len() && (#[trigger] keys[k].levels[l]).yields(sym)
}

/// Below a level of key `k` that yields `sym` lies the lowest such level.
proof fn lemma_lowest_level(keys: Seq<KeyView>, sym: u32, k: int, l: int) -> (f: int)
    requires
        0 <= k < keys.len(),
        0 <= l < keys[k].levels.len(),
        keys[k].levels[l].yields(sym),
    ensures
        0 <= f <= l,
        keys[k].levels[f].yields(sym),
        forall|l2: int| 0 <= l2 < f ==> !(#[trigger] keys[k].levels[l2]).yields(sym),
    decreases l,
{
    if exists|l2: int| 0 <= l2 < l && (#[trigger] keys[k].levels[l2]).yields(sym) {
        let l2 = choose|l2: int| 0 <= l2 < l && (#[trigger] keys[k].levels[l2]).yields(sym);
        lemma_lowest_level(keys, sym, k, l2)
    } else {
        l
    }
}

/// Before a key that yields `sym` stands the first such key.
proof fn lemma_earliest_key(keys: Seq<KeyView>, sym: u32, k: int) -> (f: int)
    requires
        key_yields(keys, sym, k),
    ensures
        0 <= f <= k,
        key_yields(keys, sym, f),
        forall|k2: int| 0 <= k2 < f ==> !key_yields(keys, sym, k2),
    decreases k,
{
    if exists|k2: int| 0 <= k2 < k && key_yields(keys, sym, k2) {
        let k2 = choose|k2: int| 0 <= k2 < k && key_yields(keys, sym, k2);
        lemma_earliest_key(keys, sym, k2)
    } else {
        k
    }
}

/// A symbol that some level yields has a first match.
pub proof fn lemma_first_match_exists(keys: Seq<KeyView>, sym: u32)
    requires
        symbol_present(keys, sym),
    ensures
        exists|k: int, l: int| first_match(keys, sym, k, l),
{
    let (k0, l0) = choose|k: int, l: int|
        0 <= k < keys.len() && 0 <= l < keys[k].levels.len()
            && (#[trigger] keys[k].levels[l]).yields(sym);
    assert(key_yields(keys, sym, k0));
    let k = lemma_earliest_key(keys, sym, k0);
    let l1 = choose|l: int|
        0 <= l < keys[k].levels.len() && (#[trigger] keys[k].levels[l]).yields(sym);
    let l = lemma_lowest_level(keys, sym, k, l1);
    assert forall|k2: int, l2: int| 0 <= k2 < k && 0 <= l2 < keys[k2].levels.len() implies !(
    #[trigger] keys[k2].levels[l2]).yields(sym) by {
        if keys[k2].levels[l2].yields(sym) {
            assert(key_yields(keys, sym, k2));
        }
    }
    assert(first_match(keys, sym, k, l));
}

/// A symbol that no level of the table yields has no plan.
pub proof fn lemma_absent_symbol_unresolved(state: KeymapView, sym: u32)
    requires
        !symbol_present(state.keys, sym),
    ensures
        state.resolution(sym) is None,
{
    assert forall|k: int, l: int| !first_match(state.keys, sym, k, l) by {
        if first_match(state.keys, sym, k, l) {
            assert(state.keys[k].levels[l].yields(sym));
        }
    }
}

/// The plan of a symbol whose first match is level `l` of key `k`: the keys
/// of the first usable combination of that level with key `k` as data key,
/// or none if no combination looked at is usable.
pub proof fn lemma_resolution_at(state: KeymapView, sym: u32, k: int, l: int)
    requires
        first_match(state.keys, sym, k, l),
    ensures
        forall|a: int| #[trigger]
            first_usable(state.keys[k].levels[l].masks, state.modifier_keycode, a)
                ==> state.resolution(sym) == Some(
                (
                    plan_mods(state.keys[k].levels[l].masks[a], state.modifier_keycode),
                    state.keys[k].keycode,
                ),
            ),
        (forall|a: int| !first_usable(state.keys[k].levels[l].masks, state.modifier_keycode, a))
            ==> state.resolution(sym) is None,
{
    let table = state.modifier_keycode;
    let masks = state.keys[k].levels[l].masks;
    let (ck, cl) = choose|ck: int, cl: int| first_match(state.keys, sym, ck, cl);
    lemma_first_match_unique(state.keys, sym, k, l, ck, cl);
    assert forall|a: int| #[trigger] first_usable(masks, table, a) implies state.resolution(sym)
        == Some((plan_mods(masks[a], table), state.keys[k].keycode)) by {
        let ca = choose|ca: int| first_usable(masks, table, ca);
        lemma_first_usable_unique(masks, table, a, ca);
    }
}

/// The data key of a plan has a level that yields the symbol.
pub proof fn lemma_plan_key_yields_symbol(
    state: KeymapView,
    sym: u32,
    mods: Seq<u32>,
    keycode: u32,
)
    requires
        state.resolution(sym) == Some((mods, keycode)),
    ensures
        exists|k: int, l: int|
            0 <= k < state.keys.len() && 0 <= l < state.keys[k].levels.len()
                && state.keys[k].keycode == keycode && (#[trigger] state.keys[k].levels[l]).yields(
                sym,
            ),
{
    let (k, l) = choose|k: int, l: int| first_match(state.keys, sym, k, l);
    assert(state.keys[k].levels[l].yields(sym));
}

/// The keys of a plan are listed by ascending modifier index: entry `i` of
/// the plan is the key of the `i`-th smallest modifier of the combination,
/// and every modifier of the combination below 32 has its entry.
pub proof fn lemma_plan_mods_ascending(mask: Set<nat>, table: Map<u8, u32>)
    ensures
        plan_mods(mask, table).len() == ascending(mask, 32).len(),
        forall|i: int|
            0 <= i < ascending(mask, 32).len() ==> #[trigger] plan_mods(mask, table)[i]
                == table[ascending(mask, 32)[i] as u8],
        forall|i: int, j: int|
            0 <= i < j < ascending(mask, 32).len() ==> ascending(mask, 32)[i] < ascending(
                mask,
                32,
            )[j],
        forall|m: nat| ascending(mask, 32).contains(m) <==> m < 32 && mask.contains(m),
{
    lemma_ascending(mask, 32);
}

/// Scans the table for the first key and level that yield `sym`.
pub fn find_first_match(table: &KeyTable, sym: u32) -> (r: Option<(usize, usize)>)
    ensures
        match r {
            Some((k, l)) => first_match(table@, sym, k as int, l as int),
            None => !symbol_present(table@, sym),
        },
{
    let keys = &table.keys;
    let mut k: usize = 0;
    while k < keys.len()
        invariant
            *keys == table.keys,
            k <= keys@.len(),
            forall|k2: int, l2: int|
                0 <= k2 < k && 0 <= l2 < table@[k2].levels.len() ==> !(
                #[trigger] table@[k2].levels[l2]).yields(sym),
        decreases keys@.len() - k,
    {
        let levels = &keys[k].levels;
        assert(table@[k as int] == keys@[k as int]@);
        let mut l: usize = 0;
        while l < levels.len()
            invariant
                *keys == table.keys,
                k < keys@.len(),
                *levels == keys@[k as int].levels,
                table@[k as int] == keys@[k as int]@,
                l <= levels@.len(),
                forall|l2: int|
                    0 <= l2 < l ==> !(#[trigger] table@[k as int].levels[l2]).yields(sym),
                forall|k2: int, l2: int|
                    0 <= k2 < k && 0 <= l2 < table@[k2].levels.len() ==> !(
                    #[trigger] table@[k2].levels[l2]).yields(sym),
            decreases levels@.len() - l,
        {
            assert(table@[k as int].levels[l as int] == levels@[l as int]@);
            if levels[l].produces(sym) {
                return Some((k, l));
            }
            l = l + 1;
        }
        k = k + 1;
    }
    None
}

/// Looks up the keys that hold the modifiers of `mask`, by ascending
/// modifier index. Fails if some modifier of `mask` has no key in `table`.
pub fn modifier_keys_for(mask: ModSet, table: &HashMap<u8, u32>) -> (r: Option<Vec<u32>>)
    ensures
        match r {
            Some(mods) => usable(mask@, table@) && mods@ == plan_mods(mask@, table@),
            None => !usable(mask@, table@),
        },
{
    let members = mask.members();
    let ghost indices = ascending(mask@, 32);
    proof {
        lemma_ascending(mask@, 32);
        assert(members@.len() == indices.len());
    }
    let mut mods: Vec<u32> = Vec::new();
    let mut i: usize = 0;
    while i < members.len()
        invariant
            i <= members@.len(),
            indices == ascending(mask@, 32),
            members@.map_values(|m: u32| m as nat) == indices,
            forall|j: int| 0 <= j < indices.len() ==> (#[trigger] indices[j]) < 32,
            forall|j: int| 0 <= j < indices.len() ==> mask@.contains(#[trigger] indices[j]),
            forall|j: int| 0 <= j < i ==> table@.contains_key((#[trigger] indices[j]) as u8),
            mods@ == indices.take(i as int).map_values(|m: nat| table@[m as u8]),
        decreases members@.len() - i,
    {
        let m = members[i];
        assert(indices[i as int] == m as nat);
        let index: u8 = m as u8;
        match table.get(&index) {
            Some(code) => {
                mods.push(*code);
            },
            None => {
                assert(mask@.contains(m as nat));
                return None;
            },
        }
        assert(mods@ =~= indices.take(i + 1).map_values(|m: nat| table@[m as u8]));
        i = i + 1;
    }
    proof {
        assert(indices.take(i as int) =~= indices);
        assert forall|m: nat| #[trigger] mask@.contains(m) implies m < 32 && table@.contains_key(
            m as u8,
        ) by {
            assert(indices.contains(m));
            let j = choose|j: int| 0 <= j < indices.len() && indices[j] == m;
            assert(table@.contains_key(indices[j] as u8));
        }
    }
    Some(mods)
}

/// Finds the first usable combination among the first
/// [`MAX_ALTERNATIVES`] of `masks`, and the keys that hold its modifiers.
pub fn find_first_usable(masks: &Vec<ModSet>, table: &HashMap<u8, u32>) -> (r: Option<
    (usize, Vec<u32>),
>)
    ensures
        match r {
            Some((a, mods)) => first_usable(mask_views(masks@), table@, a as int) && mods@
                == plan_mods(mask_views(masks@)[a as int], table@),
            None => forall|a: int| !first_usable(mask_views(masks@), table@, a),
        },
{
    let mut a: usize = 0;
    while a < masks.len() && a < MAX_ALTERNATIVES
        invariant
            a <= masks@.len(),
            a <= MAX_ALTERNATIVES,
            forall|b: int| 0 <= b < a ==> !usable(#[trigger] mask_views(masks@)[b], table@),
        decreases masks@.len() - a,
    {
        assert(mask_views(masks@)[a as int] == masks@[a as int]@);
        match modifier_keys_for(masks[a], table) {
            Some(mods) => {
                return Some((a, mods));
            },
            None => {},
        }
        a = a + 1;
    }
    None
}

impl KeymapState {
    /// Resolves `sym` against this snapshot.
    pub fn resolve(&self, sym: u16) -> (r: Option<(Vec<u32>, u32)>)
        ensures
            match r {
                Some((mods, keycode)) => self@.resolution(sym as u32) == Some((mods@, keycode)),
                None => self@.resolution(sym as u32) is None,
            },
            !symbol_present(self@.keys, sym as u32) ==> r is None,
    {
        let target: u32 = sym as u32;
        let mapping = self.table();
        let reverse = self.modifier_keys();
        match find_first_match(mapping, target) {
            None => {
                proof {
                    lemma_absent_symbol_unresolved(self@, target);
                }
                None
            },
            Some((k, l)) => {
                let key = &mapping.keys[k];
                let level = &key.levels[l];
                proof {
                    lemma_resolution_at(self@, target, k as int, l as int);
                    assert(self@.keys[k as int] == key@);
                    assert(self@.keys[k as int].levels[l as int] == level@);
                }
                let ghost masks = self@.keys[k as int].levels[l as int].masks;
                assert(masks == mask_views(level.masks@));
                match find_first_usable(&level.masks, reverse) {
                    None => None,
                    Some((a, mods)) => {
                        assert(first_usable(masks, self@.modifier_keycode, a as int));
                        Some((mods, key.keycode))
                    },
                }
            },
        }
    }
}

} // verus!
