//! Sets of modifier indices.
//!
//! A keymap numbers its modifiers (Shift, Lock, Control, ...) from zero, and
//! the keymap library reports groups of them as 32-bit masks with one bit per
//! index. [`ModSet`] wraps such a mask and is viewed as the set of indices
//! whose bit is set, so that contracts speak of membership, not of bits.
use vstd::prelude::*;

verus! {

/// Number of modifier indices a mask has room for.
pub const MAX_MODS: u32 = 32;

/// Whether bit `m` of `mask` is set. Indices from 32 on are never set.
pub open spec fn mask_has(mask: u32, m: nat) -> bool {
    m < 32 && (mask & (1u32 << (m as u32))) != 0
}

/// A set of modifier indices below 32.
#[derive(Clone, Copy, Debug, PartialEq, Eq, Structural)]
pub struct ModSet {
    /// One bit per member: bit `m` is set exactly if `m` is in the set.
    pub mask: u32,
}

impl View for ModSet {
    type V = Set<nat>;

    open spec fn view(&self) -> Set<nat> {
        Set::new(|m: nat| mask_has(self.mask, m))
    }
}

/// No index is a member of the zero mask.
pub proof fn lemma_zero_mask_empty(m: nat)
    ensures
        !mask_has(0, m),
{
    if m < 32 {
        let i: u32 = m as u32;
        assert((0u32 & (1u32 << i)) == 0) by (bit_vector);
    }
}

/// Setting bit `m` adds `m` and changes the membership of no other index.
pub proof fn lemma_set_bit(mask: u32, m: u32, j: nat)
    requires
        m < 32,
    ensures
        mask_has(mask | (1u32 << m), j) == (j == m || mask_has(mask, j)),
{
    if j < 32 {
        let i: u32 = j as u32;
        assert(((mask | (1u32 << m)) & (1u32 << i)) != 0 <==> (i == m || (mask & (1u32 << i))
            != 0)) by (bit_vector)
            requires
                m < 32,
                i < 32,
        ;
    }
}

/// The members of `set` below `n`, in ascending order.
pub open spec fn ascending(set: Set<nat>, n: nat) -> Seq<nat>
    decreases n,
{
    if n == 0 {
        Seq::empty()
    } else if set.contains((n - 1) as nat) {
        ascending(set, (n - 1) as nat).push((n - 1) as nat)
    } else {
        ascending(set, (n - 1) as nat)
    }
}

impl ModSet {
    /// The set without members.
    pub fn empty() -> (s: Self)
        ensures
            s.mask == 0,
            s@ == Set::<nat>::empty(),
    {
        let s = ModSet { mask: 0 };
        proof {
            assert forall|m: nat| !s@.contains(m) by {
                lemma_zero_mask_empty(m);
            }
            assert(s@ =~= Set::<nat>::empty());
        }
        s
    }

    /// The set whose members are the indices of the bits set in `mask`.
    pub fn from_mask(mask: u32) -> (s: Self)
        ensures
            s.mask == mask,
    {
        ModSet { mask }
    }

    /// Whether `m` is a member. No index from 32 on ever is.
    pub fn contains(&self, m: u32) -> (r: bool)
        ensures
            r == self@.contains(m as nat),
    {
        m < MAX_MODS && (self.mask & (1u32 << m)) != 0
    }

    /// Adds `m`. A set has no room for an index from 32 on and stays as it is.
    pub fn insert(&mut self, m: u32)
        ensures
            m < 32 ==> final(self)@ == old(self)@.insert(m as nat),
            m >= 32 ==> *final(self) == *old(self),
    {
        if m < MAX_MODS {
            let ghost before = self.mask;
            self.mask = self.mask | (1u32 << m);
            proof {
                assert forall|j: nat| self@.contains(j) == (j == m || old(self)@.contains(j)) by {
                    lemma_set_bit(before, m, j);
                }
                assert(self@ =~= old(self)@.insert(m as nat));
            }
        }
    }

    /// The members in ascending order.
    pub fn members(&self) -> (v: Vec<u32>)
        ensures
            v@.map_values(|m: u32| m as nat) == ascending(self@, 32),
    {
        let mut v: Vec<u32> = Vec::new();
        let mut m: u32 = 0;
        while m < MAX_MODS
            invariant
                m <= 32,
                v@.map_values(|x: u32| x as nat) == ascending(self@, m as nat),
            decreases 32 - m,
        {
            let ghost before = v@;
            if self.contains(m) {
                v.push(m);
                assert(v@.map_values(|x: u32| x as nat) =~= before.map_values(
                    |x: u32| x as nat,
                ).push(m as nat));
            }
            m = m + 1;
        }
        v
    }
}

/// `ascending(set, n)` lists exactly the members of `set` below `n`, each
/// once, smallest first.
pub proof fn lemma_ascending(set: Set<nat>, n: nat)
    ensures
        forall|i: int, j: int|
            0 <= i < j < ascending(set, n).len() ==> ascending(set, n)[i] < ascending(set, n)[j],
        forall|i: int| 0 <= i < ascending(set, n).len() ==> (#[trigger] ascending(set, n)[i]) < n,
        forall|m: nat| ascending(set, n).contains(m) <==> m < n && set.contains(m),
    decreases n,
{
    if n > 0 {
        let p = (n - 1) as nat;
        lemma_ascending(set, p);
        let prev = ascending(set, p);
        let cur = ascending(set, n);
        if set.contains(p) {
            assert(cur == prev.push(p));
            assert forall|m: nat| cur.contains(m) <==> m < n && set.contains(m) by {
                if cur.contains(m) {
                    let i = choose|i: int| 0 <= i < cur.len() && cur[i] == m;
                    if i < prev.len() {
                        assert(prev[i] == m);
                        assert(prev.contains(m));
                    }
                }
                if m < n && set.contains(m) {
                    if m == p {
                        assert(cur[cur.len() - 1] == m);
                    } else {
                        assert(prev.contains(m));
                        let i = choose|i: int| 0 <= i < prev.len() && prev[i] == m;
                        assert(cur[i] == m);
                    }
                }
            }
        } else {
            assert(cur == prev);
        }
    } else {
        assert(ascending(set, 0).len() == 0);
    }
}

} // verus!
