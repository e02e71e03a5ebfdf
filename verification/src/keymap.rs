//! The keymap model: which key yields which symbol, and which key holds
//! which modifier.
//!
//! A [`KeyTable`] is the forward table of one keyboard layout, read out of the
//! keymap library key by key. A [`KeymapState`] pairs it with the reverse
//! table derived from it: for each modifier, the key that is pressed to hold
//! that modifier down.
//!
//! Contracts speak of these types through their views: sequences of keys and
//! levels, sets of modifier indices, and a map from modifier index to
//! keycode.
use crate::modset::{ModSet, MAX_MODS};
use std::collections::HashMap;
use vstd::prelude::*;

verus! {

broadcast use vstd::std_specs::hash::group_hash_axioms;

/// One shift level of a key, in the first layout group.
#[derive(Clone, Debug)]
pub struct Level {
    /// The symbols the key yields at this level.
    pub syms: Vec<u32>,
    /// The modifier combinations that select this level, in the order in
    /// which the keymap library reports them.
    pub masks: Vec<ModSet>,
}

/// One key of the keyboard.
#[derive(Clone, Debug)]
pub struct Key {
    /// The key's code on the wire.
    pub keycode: u32,
    /// The modifiers that are held once this key alone has gone down, with
    /// no modifier active before.
    pub activates: ModSet,
    /// The key's shift levels, lowest first.
    pub levels: Vec<Level>,
}

/// The forward table of a layout: its keys in the keymap's own order.
#[derive(Clone, Debug)]
pub struct KeyTable {
    pub keys: Vec<Key>,
}

/// A level as contracts see it.
pub struct LevelView {
    pub syms: Seq<u32>,
    pub masks: Seq<Set<nat>>,
}

/// A key as contracts see it.
pub struct KeyView {
    pub keycode: u32,
    pub activates: Set<nat>,
    pub levels: Seq<LevelView>,
}

/// A snapshot as contracts see it.
pub struct KeymapView {
    /// The forward table.
    pub keys: Seq<KeyView>,
    /// The reverse table.
    pub modifier_keycode: Map<u8, u32>,
}

/// The modifier combinations as sets.
pub open spec fn mask_views(masks: Seq<ModSet>) -> Seq<Set<nat>> {
    masks.map_values(|mask: ModSet| mask@)
}

/// The views of the levels.
pub open spec fn level_views(levels: Seq<Level>) -> Seq<LevelView> {
    levels.map_values(|level: Level| level@)
}

/// The views of the keys.
pub open spec fn key_views(keys: Seq<Key>) -> Seq<KeyView> {
    keys.map_values(|key: Key| key@)
}

impl View for Level {
    type V = LevelView;

    open spec fn view(&self) -> LevelView {
        LevelView { syms: self.syms@, masks: mask_views(self.masks@) }
    }
}

impl View for Key {
    type V = KeyView;

    open spec fn view(&self) -> KeyView {
        KeyView {
            keycode: self.keycode,
            activates: self.activates@,
            levels: level_views(self.levels@),
        }
    }
}

impl View for KeyTable {
    type V = Seq<KeyView>;

    open spec fn view(&self) -> Seq<KeyView> {
        key_views(self.keys@)
    }
}

impl LevelView {
    /// The level yields `sym` and nothing else.
    pub open spec fn yields(self, sym: u32) -> bool {
        self.syms.len() == 1 && self.syms[0] == sym
    }
}

impl Level {
    /// Whether the level yields `sym` and nothing else.
    pub fn produces(&self, sym: u32) -> (r: bool)
        ensures
            r == self@.yields(sym),
    {
        self.syms.len() == 1 && self.syms[0] == sym
    }
}

/// Some key of `keys` activates modifier `m`.
pub open spec fn some_key_activates(keys: Seq<KeyView>, m: nat) -> bool {
    exists|j: int| 0 <= j < keys.len() && (#[trigger] keys[j]).activates.contains(m)
}

/// Key `i` is the first of `keys` that activates modifier `m`.
pub open spec fn first_activating(keys: Seq<KeyView>, m: nat, i: int) -> bool {
    &&& 0 <= i < keys.len()
    &&& keys[i].activates.contains(m)
    &&& forall|j: int| 0 <= j < i ==> !(#[trigger] keys[j]).activates.contains(m)
}

/// `table` is right about modifier `m`: it has an entry for `m` exactly if
/// some key activates `m`, and the entry is the code of the first such key.
pub open spec fn modifier_entry(keys: Seq<KeyView>, table: Map<u8, u32>, m: u8) -> bool {
    &&& table.contains_key(m) <==> some_key_activates(keys, m as nat)
    &&& table.contains_key(m) ==> exists|i: int| #[trigger]
        first_activating(keys, m as nat, i) && table[m] == keys[i].keycode
}

/// `table` is the reverse table of `keys`: right about every modifier.
pub open spec fn is_modifier_table(keys: Seq<KeyView>, table: Map<u8, u32>) -> bool {
    forall|m: u8| #[trigger] modifier_entry(keys, table, m)
}

impl KeymapView {
    /// The reverse table is the one derived from the forward table.
    pub open spec fn wf(self) -> bool {
        is_modifier_table(self.keys, self.modifier_keycode)
    }
}

/// A forward table has one reverse table.
pub proof fn lemma_modifier_table_unique(keys: Seq<KeyView>, a: Map<u8, u32>, b: Map<u8, u32>)
    requires
        is_modifier_table(keys, a),
        is_modifier_table(keys, b),
    ensures
        a =~= b,
{
    assert forall|m: u8| a.contains_key(m) == b.contains_key(m) by {
        assert(modifier_entry(keys, a, m));
        assert(modifier_entry(keys, b, m));
    }
    assert forall|m: u8| a.contains_key(m) implies a[m] == b[m] by {
        assert(modifier_entry(keys, a, m));
        assert(modifier_entry(keys, b, m));
        let i = choose|i: int| #[trigger]
            first_activating(keys, m as nat, i) && a[m] == keys[i].keycode;
        let j = choose|j: int| #[trigger]
            first_activating(keys, m as nat, j) && b[m] == keys[j].keycode;
        if i < j {
            assert(!keys[i].activates.contains(m as nat));
        } else if j < i {
            assert(!keys[j].activates.contains(m as nat));
        }
    }
}

/// Taking key `i` into account keeps a table right about `m`, provided the
/// table gained the entry for `m` if key `i` is the first to activate `m` and
/// kept what it said of `m` otherwise.
proof fn lemma_extend_entry(
    keys: Seq<KeyView>,
    i: int,
    before: Map<u8, u32>,
    after: Map<u8, u32>,
    m: u8,
)
    requires
        0 <= i < keys.len(),
        modifier_entry(keys.take(i), before, m),
        keys[i].activates.contains(m as nat) && !before.contains_key(m) ==> after.contains_key(m)
            && after[m] == keys[i].keycode,
        !(keys[i].activates.contains(m as nat) && !before.contains_key(m)) ==> (
        after.contains_key(m) == before.contains_key(m)) && (after.contains_key(m) ==> after[m]
            == before[m]),
    ensures
        modifier_entry(keys.take(i + 1), after, m),
{
    let short = keys.take(i);
    let long = keys.take(i + 1);
    assert(long[i] == keys[i]);
    assert forall|j: int| 0 <= j < i implies short[j] == long[j] by {}
    if before.contains_key(m) {
        let f = choose|f: int|
            first_activating(short, m as nat, f) && before[m] == short[f].keycode;
        assert(long[f] == short[f]);
        assert(first_activating(long, m as nat, f));
    } else {
        assert forall|j: int| 0 <= j < i implies !(#[trigger] long[j]).activates.contains(
            m as nat,
        ) by {
            assert(short[j] == long[j]);
        }
        if keys[i].activates.contains(m as nat) {
            assert(first_activating(long, m as nat, i));
        }
    }
    if some_key_activates(long, m as nat) && !some_key_activates(short, m as nat) {
        let j = choose|j: int| 0 <= j < long.len() && (#[trigger] long[j]).activates.contains(
            m as nat,
        );
        if j < i {
            assert(short[j] == long[j]);
        }
    }
    if some_key_activates(short, m as nat) {
        let j = choose|j: int| 0 <= j < short.len() && (#[trigger] short[j]).activates.contains(
            m as nat,
        );
        assert(long[j] == short[j]);
    }
}

/// A keymap snapshot: the forward table of the layout and the reverse table
/// from modifier index to the key that holds that modifier.
///
/// The reverse table assumes that modifiers are independent of one another.
/// A modifier that no single key activates has no entry, and a symbol that
/// needs it cannot be typed.
#[derive(Debug)]
pub struct KeymapState {
    mapping: KeyTable,
    modifier_keycode: HashMap<u8, u32>,
}

impl View for KeymapState {
    type V = KeymapView;

    closed spec fn view(&self) -> KeymapView {
        KeymapView { keys: self.mapping@, modifier_keycode: self.modifier_keycode@ }
    }
}

impl KeymapState {
    /// Every snapshot that exists at run time is well formed.
    #[verifier::type_invariant]
    pub open spec fn inv(&self) -> bool {
        self@.wf()
    }

    /// Builds the snapshot of a layout. Each modifier is assigned the first
    /// key, in table order, that activates it.
    pub fn new(mapping: KeyTable) -> (s: Self)
        ensures
            s@.keys == mapping@,
            s@.wf(),
    {
        let mut modifier_keycode: HashMap<u8, u32> = HashMap::new();
        let n = mapping.keys.len();
        let mut i: usize = 0;
        assert(mapping@.take(0).len() == 0);
        while i < n
            invariant
                n == mapping.keys@.len(),
                n == mapping@.len(),
                i <= n,
                is_modifier_table(mapping@.take(i as int), modifier_keycode@),
            decreases n - i,
        {
            let key = &mapping.keys[i];
            assert(mapping@[i as int] == key@);
            let mut m: u32 = 0;
            while m < MAX_MODS
                invariant
                    n == mapping@.len(),
                    i < n,
                    m <= 32,
                    mapping@[i as int] == key@,
                    forall|b: u8|
                        b < m ==> #[trigger] modifier_entry(
                            mapping@.take(i + 1),
                            modifier_keycode@,
                            b,
                        ),
                    forall|b: u8|
                        b >= m ==> #[trigger] modifier_entry(
                            mapping@.take(i as int),
                            modifier_keycode@,
                            b,
                        ),
                decreases 32 - m,
            {
                let ghost before = modifier_keycode@;
                let index: u8 = m as u8;
                if key.activates.contains(m) && !modifier_keycode.contains_key(&index) {
                    modifier_keycode.insert(index, key.keycode);
                }
                proof {
                    let after = modifier_keycode@;
                    lemma_extend_entry(mapping@, i as int, before, after, index);
                    assert forall|b: u8| b < m + 1 implies #[trigger] modifier_entry(
                        mapping@.take(i + 1),
                        after,
                        b,
                    ) by {
                        if b != index {
                            assert(modifier_entry(mapping@.take(i + 1), before, b));
                            assert(after.contains_key(b) == before.contains_key(b));
                        }
                    }
                    assert forall|b: u8| b >= m + 1 implies #[trigger] modifier_entry(
                        mapping@.take(i as int),
                        after,
                        b,
                    ) by {
                        assert(modifier_entry(mapping@.take(i as int), before, b));
                        assert(after.contains_key(b) == before.contains_key(b));
                    }
                }
                m = m + 1;
            }
            proof {
                assert forall|b: u8| #[trigger]
                    modifier_entry(mapping@.take(i + 1), modifier_keycode@, b) by {
                    if b >= 32 {
                        lemma_extend_entry(
                            mapping@,
                            i as int,
                            modifier_keycode@,
                            modifier_keycode@,
                            b,
                        );
                    }
                }
            }
            i = i + 1;
        }
        assert(mapping@.take(n as int) == mapping@);
        KeymapState { mapping, modifier_keycode }
    }

    /// The forward table.
    pub fn table(&self) -> (t: &KeyTable)
        ensures
            t@ == self@.keys,
            self@.wf(),
    {
        proof {
            use_type_invariant(self);
        }
        &self.mapping
    }

    /// The reverse table.
    pub fn modifier_keys(&self) -> (t: &HashMap<u8, u32>)
        ensures
            t@ == self@.modifier_keycode,
    {
        &self.modifier_keycode
    }

    /// The key that holds modifier `m`, if a single key does.
    pub fn modifier_key(&self, m: u8) -> (k: Option<u32>)
        ensures
            match k {
                Some(code) => self@.modifier_keycode.contains_key(m) && self@.modifier_keycode[m]
                    == code,
                None => !self@.modifier_keycode.contains_key(m),
            },
    {
        match self.modifier_keycode.get(&m) {
            Some(code) => Some(*code),
            None => None,
        }
    }
}

} // verus!
