//! A model of holding keys down, and the proof that a plan types its symbol.
//!
//! Pressing a key adds the modifiers that the key activates to those already
//! held. A level of a key is selected when the modifiers held are one of the
//! combinations listed for that level.
use crate::keymap::{
    first_activating, is_modifier_table, modifier_entry, KeyView, KeymapView, LevelView,
};
use crate::modset::ascending;
use crate::resolver::{first_match, first_usable, plan_mods, usable};
use vstd::prelude::*;

verus! {

/// No two keys of the table share a keycode.
pub open spec fn keycodes_distinct(keys: Seq<KeyView>) -> bool {
    forall|i: int, j: int|
        0 <= i < j < keys.len() ==> (#[trigger] keys[i]).keycode != (#[trigger] keys[j]).keycode
}

/// Every key activates at most one modifier.
pub open spec fn modifiers_independent(keys: Seq<KeyView>) -> bool {
    forall|i: int, m1: nat, m2: nat|
        0 <= i < keys.len() && (#[trigger] keys[i].activates.contains(m1)) && (
        #[trigger] keys[i].activates.contains(m2)) ==> m1 == m2
}

/// Key `i` of `keys` has the code `code`.
pub open spec fn has_code(keys: Seq<KeyView>, code: u32, i: int) -> bool {
    0 <= i < keys.len() && keys[i].keycode == code
}

/// The modifiers that the key with code `code` activates. A code that no key
/// has activates nothing.
pub open spec fn activated_by(keys: Seq<KeyView>, code: u32) -> Set<nat> {
    if exists|i: int| has_code(keys, code, i) {
        keys[choose|i: int| has_code(keys, code, i)].activates
    } else {
        Set::empty()
    }
}

/// The modifiers held once the keys `presses` have gone down one after the
/// other, with no modifier held before.
pub open spec fn held_after(keys: Seq<KeyView>, presses: Seq<u32>) -> Set<nat>
    decreases presses.len(),
{
    if presses.len() == 0 {
        Set::empty()
    } else {
        held_after(keys, presses.drop_last()).union(activated_by(keys, presses.last()))
    }
}

/// `level` is the level in force while exactly the modifiers `held` are
/// held.
pub open spec fn selected_by(level: LevelView, held: Set<nat>) -> bool {
    exists|a: int| 0 <= a < level.masks.len() && #[trigger] level.masks[a] == held
}

/// Under a reverse table derived from independent keys with distinct codes,
/// pressing the keys listed for the members of `mask` below `n` holds exactly
/// those members.
proof fn lemma_held_after_prefix(keys: Seq<KeyView>, table: Map<u8, u32>, mask: Set<nat>, n: nat)
    requires
        is_modifier_table(keys, table),
        keycodes_distinct(keys),
        modifiers_independent(keys),
        usable(mask, table),
        n <= 32,
    ensures
        held_after(keys, ascending(mask, n).map_values(|m: nat| table[m as u8])) == Set::new(
            |m: nat| m < n && mask.contains(m),
        ),
    decreases n,
{
    let f = |m: nat| table[m as u8];
    let presses = ascending(mask, n).map_values(f);
    let target = Set::new(|m: nat| m < n && mask.contains(m));
    if n == 0 {
        assert(presses.len() == 0);
        assert(held_after(keys, presses) =~= target);
    } else {
        let p = (n - 1) as nat;
        lemma_held_after_prefix(keys, table, mask, p);
        let before = ascending(mask, p).map_values(f);
        let lower = Set::new(|m: nat| m < p && mask.contains(m));
        if mask.contains(p) {
            assert(presses =~= before.push(table[p as u8]));
            assert(presses.drop_last() =~= before);
            assert(presses.last() == table[p as u8]);
            let index = p as u8;
            assert(modifier_entry(keys, table, index));
            assert(table.contains_key(index));
            let i = choose|i: int| #[trigger]
                first_activating(keys, index as nat, i) && table[index] == keys[i].keycode;
            assert(has_code(keys, table[index], i));
            let c = choose|c: int| has_code(keys, table[index], c);
            assert(c == i) by {
                if c < i {
                    assert(keys[c].keycode != keys[i].keycode);
                } else if i < c {
                    assert(keys[i].keycode != keys[c].keycode);
                }
            }
            assert(activated_by(keys, table[index]) == keys[i].activates);
            assert(keys[i].activates =~= Set::<nat>::empty().insert(p)) by {
                assert forall|m: nat| keys[i].activates.contains(m) implies m == p by {
                    assert(keys[i].activates.contains(p));
                }
            }
            assert(held_after(keys, presses) =~= target);
        } else {
            assert(presses =~= before);
            assert(lower =~= target);
        }
    }
}

/// A plan types its symbol. Take a well-formed snapshot whose keys have
/// distinct codes and activate at most one modifier each, and a plan
/// `(mods, keycode)` that it gives for `sym`. Press the keys `mods` in order,
/// starting with no modifier held. Then the key with code `keycode` has a
/// level that yields `sym` and that is selected by the modifiers then held.
pub proof fn lemma_plan_types_symbol(state: KeymapView, sym: u32, mods: Seq<u32>, keycode: u32)
    requires
        state.wf(),
        keycodes_distinct(state.keys),
        modifiers_independent(state.keys),
        state.resolution(sym) == Some((mods, keycode)),
    ensures
        exists|k: int, l: int|
            0 <= k < state.keys.len() && 0 <= l < state.keys[k].levels.len()
                && state.keys[k].keycode == keycode && (#[trigger] state.keys[k].levels[l]).yields(
                sym,
            ) && selected_by(state.keys[k].levels[l], held_after(state.keys, mods)),
{
    let keys = state.keys;
    let table = state.modifier_keycode;
    let (k, l) = choose|k: int, l: int| first_match(keys, sym, k, l);
    let level = keys[k].levels[l];
    let a = choose|a: int| first_usable(level.masks, table, a);
    let mask = level.masks[a];
    assert(mods == plan_mods(mask, table));
    lemma_held_after_prefix(keys, table, mask, 32);
    assert(held_after(keys, mods) =~= mask);
    assert(selected_by(level, held_after(keys, mods)));
}

} // verus!
