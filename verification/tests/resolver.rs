use input_synth::resolver::{
    find_first_match, find_first_usable, modifier_keys_for, MAX_ALTERNATIVES,
};
use input_synth::{Key, KeyTable, KeymapState, Level, ModSet};
use std::collections::HashMap;

fn level(syms: &[u32], masks: &[u32]) -> Level {
    Level { syms: syms.to_vec(), masks: masks.iter().map(|m| ModSet::from_mask(*m)).collect() }
}

fn key(keycode: u32, activates: u32, levels: Vec<Level>) -> Key {
    Key { keycode, activates: ModSet::from_mask(activates), levels }
}

const SHIFT: u32 = 1 << 0;
const LOCK: u32 = 1 << 1;
const CONTROL: u32 = 1 << 2;
const MOD1: u32 = 1 << 3;
const MOD3: u32 = 1 << 5;
const MOD5: u32 = 1 << 7;

/// A cut of the common US layout.
fn us_table() -> KeyTable {
    KeyTable {
        keys: vec![
            key(10, 0, vec![level(&[0x31], &[0]), level(&[0x21], &[SHIFT])]),
            key(22, 0, vec![level(&[0xff08], &[0])]),
            key(23, 0, vec![level(&[0xff09], &[0]), level(&[0xfe20], &[SHIFT])]),
            key(
                24,
                0,
                vec![
                    level(&[0x71], &[0]),
                    level(&[0x51], &[SHIFT, LOCK]),
                    level(&[0x40], &[MOD5]),
                    level(&[0x7d9], &[SHIFT | MOD5]),
                ],
            ),
            key(36, 0, vec![level(&[0xff0d], &[0])]),
            key(37, CONTROL, vec![level(&[0xffe3], &[0])]),
            key(38, 0, vec![level(&[0x61], &[0]), level(&[0x41], &[SHIFT, LOCK])]),
            key(50, SHIFT, vec![level(&[0xffe1], &[0])]),
            key(62, SHIFT, vec![level(&[0xffe2], &[0])]),
            key(64, MOD1, vec![level(&[0xffe9], &[0]), level(&[0xffe7], &[SHIFT])]),
            key(66, LOCK, vec![level(&[0xffe5], &[0])]),
            key(108, MOD5, vec![level(&[0xfe03], &[0])]),
        ],
    }
}

fn table_of(entries: &[(u8, u32)]) -> HashMap<u8, u32> {
    entries.iter().copied().collect()
}

#[test]
fn reverse_table_takes_first_key_per_modifier() {
    let state = KeymapState::new(us_table());
    assert_eq!(state.modifier_key(0), Some(50));
    assert_eq!(state.modifier_key(1), Some(66));
    assert_eq!(state.modifier_key(2), Some(37));
    assert_eq!(state.modifier_key(3), Some(64));
    assert_eq!(state.modifier_key(7), Some(108));
    assert_eq!(state.modifier_keys().len(), 5);
}

#[test]
fn reverse_table_has_no_entry_for_unreachable_modifier() {
    let state = KeymapState::new(us_table());
    assert_eq!(state.modifier_key(4), None);
    assert_eq!(state.modifier_key(5), None);
    assert_eq!(state.modifier_key(6), None);
    assert_eq!(state.modifier_key(31), None);
    assert_eq!(state.modifier_key(32), None);
    assert_eq!(state.modifier_key(255), None);
}

#[test]
fn reverse_table_first_key_wins_whatever_its_code() {
    let table = KeyTable {
        keys: vec![key(200, SHIFT, vec![]), key(50, SHIFT, vec![]), key(7, SHIFT | LOCK, vec![])],
    };
    let state = KeymapState::new(table);
    assert_eq!(state.modifier_key(0), Some(200));
    assert_eq!(state.modifier_key(1), Some(7));
}

#[test]
fn reverse_table_records_every_modifier_of_a_key() {
    let table = KeyTable { keys: vec![key(90, 0x8000_0001, vec![])] };
    let state = KeymapState::new(table);
    assert_eq!(state.modifier_key(0), Some(90));
    assert_eq!(state.modifier_key(31), Some(90));
    assert_eq!(state.modifier_keys().len(), 2);
}

#[test]
fn snapshot_keeps_the_forward_table() {
    let state = KeymapState::new(us_table());
    let table = state.table();
    assert_eq!(table.keys.len(), 12);
    assert_eq!(table.keys[6].keycode, 38);
    assert_eq!(table.keys[6].levels[1].syms, vec![0x41]);
}

#[test]
fn empty_table_resolves_nothing() {
    let state = KeymapState::new(KeyTable { keys: Vec::new() });
    assert_eq!(state.modifier_keys().len(), 0);
    assert_eq!(state.resolve(0x61), None);
    assert_eq!(state.resolve(0), None);
}

#[test]
fn plain_letter_needs_no_modifier() {
    let state = KeymapState::new(us_table());
    assert_eq!(state.resolve(0x61), Some((vec![], 38)));
    assert_eq!(state.resolve(0x31), Some((vec![], 10)));
}

#[test]
fn capital_letter_takes_shift() {
    let state = KeymapState::new(us_table());
    assert_eq!(state.resolve(0x41), Some((vec![50], 38)));
    assert_eq!(state.resolve(0x21), Some((vec![50], 10)));
}

#[test]
fn third_level_takes_its_own_modifier() {
    let state = KeymapState::new(us_table());
    assert_eq!(state.resolve(0x40), Some((vec![108], 24)));
}

#[test]
fn two_modifiers_come_in_ascending_index_order() {
    let state = KeymapState::new(us_table());
    assert_eq!(state.resolve(0x7d9), Some((vec![50, 108], 24)));
}

#[test]
fn modifier_order_follows_index_not_table_position() {
    let table = KeyTable {
        keys: vec![
            key(108, MOD5, vec![]),
            key(37, CONTROL, vec![]),
            key(50, SHIFT, vec![]),
            key(30, 0, vec![level(&[0x75], &[0]), level(&[0x1234], &[MOD5 | SHIFT | CONTROL])]),
        ],
    };
    let state = KeymapState::new(table);
    assert_eq!(state.resolve(0x1234), Some((vec![50, 37, 108], 30)));
}

#[test]
fn absent_symbol_has_no_plan() {
    let state = KeymapState::new(us_table());
    assert_eq!(state.resolve(0x7a), None);
    assert_eq!(state.resolve(0xffff), None);
    assert_eq!(state.resolve(0), None);
}

#[test]
fn first_key_in_table_order_wins() {
    let table = KeyTable {
        keys: vec![
            key(90, 0, vec![level(&[0x30], &[0])]),
            key(19, 0, vec![level(&[0x30], &[0])]),
            key(50, SHIFT, vec![]),
        ],
    };
    let state = KeymapState::new(table);
    assert_eq!(state.resolve(0x30), Some((vec![], 90)));
}

#[test]
fn first_level_of_the_key_wins() {
    let table = KeyTable {
        keys: vec![
            key(50, SHIFT, vec![]),
            key(65, 0, vec![level(&[0x20], &[0]), level(&[0x20], &[SHIFT])]),
        ],
    };
    let state = KeymapState::new(table);
    assert_eq!(state.resolve(0x20), Some((vec![], 65)));
    let swapped = KeyTable {
        keys: vec![
            key(50, SHIFT, vec![]),
            key(65, 0, vec![level(&[0x20], &[SHIFT]), level(&[0x20], &[0])]),
        ],
    };
    let state = KeymapState::new(swapped);
    assert_eq!(state.resolve(0x20), Some((vec![50], 65)));
}

#[test]
fn later_key_is_not_tried_when_first_match_is_unusable() {
    let table = KeyTable {
        keys: vec![
            key(40, 0, vec![level(&[0x64], &[MOD3])]),
            key(41, 0, vec![level(&[0x64], &[0])]),
        ],
    };
    let state = KeymapState::new(table);
    assert_eq!(state.resolve(0x64), None);
}

#[test]
fn level_with_several_symbols_does_not_match() {
    let table = KeyTable {
        keys: vec![
            key(40, 0, vec![level(&[0x64, 0x65], &[0]), level(&[], &[0])]),
            key(41, 0, vec![level(&[0x65, 0x64], &[0])]),
        ],
    };
    assert_eq!(find_first_match(&table, 0x64), None);
    assert_eq!(find_first_match(&table, 0x65), None);
    let state = KeymapState::new(table);
    assert_eq!(state.resolve(0x64), None);
}

#[test]
fn symbol_is_compared_in_full_width() {
    let table = KeyTable { keys: vec![key(40, 0, vec![level(&[0x0001_0061], &[0])])] };
    let state = KeymapState::new(table);
    assert_eq!(state.resolve(0x61), None);
}

#[test]
fn unusable_combination_is_skipped() {
    let table = KeyTable {
        keys: vec![
            key(50, SHIFT, vec![]),
            key(40, 0, vec![level(&[0x64], &[0]), level(&[0x44], &[MOD3, LOCK, SHIFT])]),
        ],
    };
    let state = KeymapState::new(table);
    assert_eq!(state.resolve(0x44), Some((vec![50], 40)));
}

#[test]
fn partly_known_combination_is_unusable() {
    let table = KeyTable {
        keys: vec![
            key(50, SHIFT, vec![]),
            key(40, 0, vec![level(&[0x44], &[SHIFT | MOD3])]),
        ],
    };
    let state = KeymapState::new(table);
    assert_eq!(state.resolve(0x44), None);
}

#[test]
fn level_without_combination_has_no_plan() {
    let table = KeyTable { keys: vec![key(40, 0, vec![level(&[0x44], &[])])] };
    let state = KeymapState::new(table);
    assert_eq!(state.resolve(0x44), None);
}

#[test]
fn only_four_combinations_are_looked_at() {
    assert_eq!(MAX_ALTERNATIVES, 4);
    let fifth = KeyTable {
        keys: vec![
            key(50, SHIFT, vec![]),
            key(40, 0, vec![level(&[0x44], &[MOD3, LOCK, MOD1, CONTROL, SHIFT])]),
        ],
    };
    assert_eq!(KeymapState::new(fifth).resolve(0x44), None);
    let fourth = KeyTable {
        keys: vec![
            key(50, SHIFT, vec![]),
            key(40, 0, vec![level(&[0x44], &[MOD3, LOCK, MOD1, SHIFT, 0])]),
        ],
    };
    assert_eq!(KeymapState::new(fourth).resolve(0x44), Some((vec![50], 40)));
}

#[test]
fn bit_above_every_known_modifier_makes_combination_unusable() {
    let table = KeyTable {
        keys: vec![
            key(50, SHIFT, vec![]),
            key(40, 0, vec![level(&[0x44], &[SHIFT | 0x8000_0000])]),
        ],
    };
    let state = KeymapState::new(table);
    assert_eq!(state.resolve(0x44), None);
}

#[test]
fn resolution_is_repeatable() {
    let state = KeymapState::new(us_table());
    for sym in 0..=0xffffu16 {
        let first = state.resolve(sym);
        let second = state.resolve(sym);
        assert_eq!(first, second);
    }
}

#[test]
fn plan_selects_a_level_that_yields_the_symbol() {
    let state = KeymapState::new(us_table());
    let table = state.table();
    let mut resolved = 0;
    for sym in 0..=0xffffu16 {
        if let Some((mods, keycode)) = state.resolve(sym) {
            resolved += 1;
            let mut held: u32 = 0;
            for m in &mods {
                let pressed = table.keys.iter().find(|k| k.keycode == *m).unwrap();
                held |= pressed.activates.mask;
            }
            let data = table.keys.iter().find(|k| k.keycode == keycode).unwrap();
            let selected: Vec<&Level> = data
                .levels
                .iter()
                .filter(|l| l.masks.iter().any(|mask| mask.mask == held))
                .collect();
            assert_eq!(selected.len(), 1);
            assert_eq!(selected[0].syms, vec![sym as u32]);
        }
    }
    assert_eq!(resolved, 19);
}

#[test]
fn find_first_match_gives_key_and_level_positions() {
    let table = us_table();
    assert_eq!(find_first_match(&table, 0x61), Some((6, 0)));
    assert_eq!(find_first_match(&table, 0x41), Some((6, 1)));
    assert_eq!(find_first_match(&table, 0x7d9), Some((3, 3)));
    assert_eq!(find_first_match(&table, 0x31), Some((0, 0)));
    assert_eq!(find_first_match(&table, 0x7a), None);
    assert_eq!(find_first_match(&KeyTable { keys: Vec::new() }, 0x61), None);
}

#[test]
fn modifier_keys_need_a_key_for_every_modifier() {
    let table = table_of(&[(0, 50), (7, 108)]);
    assert_eq!(modifier_keys_for(ModSet::from_mask(0), &table), Some(vec![]));
    assert_eq!(modifier_keys_for(ModSet::from_mask(SHIFT), &table), Some(vec![50]));
    assert_eq!(modifier_keys_for(ModSet::from_mask(SHIFT | MOD5), &table), Some(vec![50, 108]));
    assert_eq!(modifier_keys_for(ModSet::from_mask(LOCK), &table), None);
    assert_eq!(modifier_keys_for(ModSet::from_mask(SHIFT | LOCK), &table), None);
    assert_eq!(modifier_keys_for(ModSet::from_mask(0x8000_0000), &table), None);
    assert_eq!(modifier_keys_for(ModSet::empty(), &HashMap::new()), Some(vec![]));
    assert_eq!(modifier_keys_for(ModSet::from_mask(SHIFT), &HashMap::new()), None);
}

#[test]
fn table_entry_beyond_mask_width_is_never_needed() {
    let table = table_of(&[(32, 1), (200, 2)]);
    assert_eq!(modifier_keys_for(ModSet::from_mask(1), &table), None);
    assert_eq!(modifier_keys_for(ModSet::from_mask(0), &table), Some(vec![]));
}

#[test]
fn modifier_keys_come_by_ascending_index() {
    let table = table_of(&[(7, 108), (0, 50), (2, 37), (31, 9)]);
    assert_eq!(modifier_keys_for(ModSet::from_mask(MOD5), &table), Some(vec![108]));
    assert_eq!(modifier_keys_for(ModSet::from_mask(MOD5 | SHIFT), &table), Some(vec![50, 108]));
    assert_eq!(
        modifier_keys_for(ModSet::from_mask(0x8000_0000 | MOD5 | CONTROL | SHIFT), &table),
        Some(vec![50, 37, 108, 9])
    );
}

#[test]
fn find_first_usable_gives_position_and_keys() {
    let table = table_of(&[(0, 50)]);
    let masks: Vec<ModSet> =
        [LOCK, MOD3, SHIFT, 0].iter().map(|m| ModSet::from_mask(*m)).collect();
    assert_eq!(find_first_usable(&masks, &table), Some((2, vec![50])));
    let masks: Vec<ModSet> = [0, SHIFT].iter().map(|m| ModSet::from_mask(*m)).collect();
    assert_eq!(find_first_usable(&masks, &table), Some((0, vec![])));
    let masks: Vec<ModSet> =
        [LOCK, MOD3, MOD1, MOD5, SHIFT].iter().map(|m| ModSet::from_mask(*m)).collect();
    assert_eq!(find_first_usable(&masks, &table), None);
    assert_eq!(find_first_usable(&Vec::new(), &table), None);
}

#[test]
fn level_produces_only_its_single_symbol() {
    assert!(level(&[0x61], &[]).produces(0x61));
    assert!(!level(&[0x61], &[]).produces(0x62));
    assert!(!level(&[], &[]).produces(0));
    assert!(!level(&[0x61, 0x61], &[]).produces(0x61));
}
