//! The items one party puts into a trade: a map from inventory slots to quantities.
use std::collections::HashMap;
use vstd::prelude::*;

verus! {

broadcast use vstd::std_specs::hash::group_hash_axioms;

/// The inventory slot that an item lies in: the loadout item that provides the
/// slot (0 for the built-in slots) and the index of the slot in it.
#[derive(Clone, Copy, Debug, PartialEq, Eq, Structural)]
pub struct InvSlotId {
    pub loadout_idx: u16,
    pub slot_idx: u16,
}

impl InvSlotId {
    pub fn new(loadout_idx: u16, slot_idx: u16) -> (s: Self)
        ensures
            s.loadout_idx == loadout_idx,
            s.slot_idx == slot_idx,
    {
        InvSlotId { loadout_idx, slot_idx }
    }
}

/// The order of slots: by loadout index, then by slot index.
pub open spec fn slot_lt(a: InvSlotId, b: InvSlotId) -> bool {
    a.loadout_idx < b.loadout_idx || (a.loadout_idx == b.loadout_idx && a.slot_idx < b.slot_idx)
}

/// Whether slot `a` comes before slot `b`.
pub fn slot_before(a: InvSlotId, b: InvSlotId) -> (r: bool)
    ensures
        r == slot_lt(a, b),
{
    a.loadout_idx < b.loadout_idx || (a.loadout_idx == b.loadout_idx && a.slot_idx < b.slot_idx)
}

/// Whether no slot occurs twice among the entries.
pub open spec fn distinct_slots(s: Seq<(InvSlotId, u32)>) -> bool {
    forall|i: int, j: int| 0 <= i < s.len() && 0 <= j < s.len() && i != j ==> s[i].0 != s[j].0
}

/// What `get` reads back after an `insert`: the quantity written for the slot
/// written, the earlier answer for any other slot.
pub proof fn lemma_get_after_insert(before: Map<InvSlotId, u32>, slot: InvSlotId, quantity: u32, other: InvSlotId)
    requires
        other != slot,
    ensures
        before.insert(slot, quantity).contains_key(slot),
        before.insert(slot, quantity)[slot] == quantity,
        before.insert(slot, quantity).contains_key(other) == before.contains_key(other),
        before.contains_key(other) ==> before.insert(slot, quantity)[other] == before[other],
{
}

/// The number that stands for a slot as a map key: the loadout index in the
/// high 16 bits, the slot index in the low ones.
pub open spec fn slot_key(s: InvSlotId) -> u32 {
    (s.loadout_idx as int * 0x1_0000 + s.slot_idx as int) as u32
}

/// The slot that a map key stands for.
pub open spec fn key_slot(k: u32) -> InvSlotId {
    InvSlotId { loadout_idx: (k / 0x1_0000) as u16, slot_idx: (k % 0x1_0000) as u16 }
}

proof fn lemma_slot_key(s: InvSlotId, k: u32)
    ensures
        key_slot(slot_key(s)) == s,
        slot_key(key_slot(k)) == k,
{
    let a = s.loadout_idx as int;
    let b = s.slot_idx as int;
    assert((a * 0x1_0000 + b) / 0x1_0000 == a && (a * 0x1_0000 + b) % 0x1_0000 == b) by (nonlinear_arith)
        requires 0 <= a < 0x1_0000, 0 <= b < 0x1_0000;
    assert(a * 0x1_0000 + b <= 0xffff_ffff) by (nonlinear_arith)
        requires 0 <= a < 0x1_0000, 0 <= b < 0x1_0000;
    let q = k as int / 0x1_0000;
    let r = k as int % 0x1_0000;
    assert(q * 0x1_0000 + r == k && 0 <= q < 0x1_0000 && 0 <= r < 0x1_0000) by (nonlinear_arith)
        requires 0 <= k <= 0xffff_ffff, q == k as int / 0x1_0000, r == k as int % 0x1_0000;
}

/// The map key of a slot.
fn key_of(s: InvSlotId) -> (k: u32)
    ensures
        k == slot_key(s),
        key_slot(k) == s,
{
    proof {
        lemma_slot_key(s, 0);
    }
    (s.loadout_idx as u32) * 0x1_0000 + (s.slot_idx as u32)
}

/// The slot of a map key.
fn slot_of(k: u32) -> (s: InvSlotId)
    ensures
        s == key_slot(k),
        slot_key(s) == k,
{
    proof {
        lemma_slot_key(key_slot(k), k);
    }
    InvSlotId { loadout_idx: (k / 0x1_0000) as u16, slot_idx: (k % 0x1_0000) as u16 }
}

/// What one party offers: for each slot offered, the quantity of its item.
/// The map is keyed by `slot_key`, which numbers the slots one to one.
pub struct TradeOffer {
    quantities: HashMap<u32, u32>,
}

impl View for TradeOffer {
    type V = Map<InvSlotId, u32>;

    closed spec fn view(&self) -> Map<InvSlotId, u32> {
        Map::new(
            |s: InvSlotId| self.quantities@.contains_key(slot_key(s)),
            |s: InvSlotId| self.quantities@[slot_key(s)],
        )
    }
}

impl TradeOffer {
    /// An empty offer.
    pub fn new() -> (o: Self)
        ensures
            o@ == Map::<InvSlotId, u32>::empty(),
    {
        let o = TradeOffer { quantities: HashMap::new() };
        assert(o@ =~= Map::<InvSlotId, u32>::empty());
        o
    }

    /// Whether nothing is offered.
    pub fn is_empty(&self) -> (b: bool)
        ensures
            b == (self@.dom() =~= Set::<InvSlotId>::empty()),
    {
        proof {
            if self.quantities@.dom().len() > 0 {
                let k = self.quantities@.dom().choose();
                lemma_slot_key(key_slot(k), k);
                assert(self@.contains_key(key_slot(k)));
            } else {
                assert forall|s: InvSlotId| !self@.contains_key(s) by {
                    if self.quantities@.contains_key(slot_key(s)) {
                        assert(self.quantities@.dom().contains(slot_key(s)));
                    }
                }
            }
        }
        self.quantities.is_empty()
    }

    /// The offered slots with their quantities, each slot once, in the order
    /// in which the map is walked (which varies).
    pub fn to_vec(&self) -> (v: Vec<(InvSlotId, u32)>)
        ensures
            distinct_slots(v@),
            forall|k: InvSlotId| #[trigger] self@.contains_key(k) <==> exists|i: int| 0 <= i < v@.len() && v@[i].0 == k,
            forall|i: int| 0 <= i < v@.len() ==> #[trigger] self@[v@[i].0] == v@[i].1,
    {
        let ghost m = self.quantities@;
        let mut v: Vec<(InvSlotId, u32)> = Vec::new();
        let ghost mut sq: Seq<(u32, u32)> = Seq::empty();
        for p in it: self.quantities.iter()
            invariant
                m == self.quantities@,
                v@.len() == it.index(),
                it.seq().len() == m.dom().len(),
                it.seq().unref().no_duplicates(),
                forall|j: int| 0 <= j < it.seq().len() ==> #[trigger] m.contains_key(*it.seq()[j].0) && m[*it.seq()[j].0] == *it.seq()[j].1,
                forall|k: u32| #[trigger] m.contains_key(k) ==> it.seq().contains((&k, &m[k])),
                forall|k: u32| #[trigger] m.contains_key(k) ==> sq.contains((k, m[k])) || exists|j: int|
                    it.index() <= j < it.seq().len() && #[trigger] it.seq()[j] == (&k, &m[k]),
                forall|j: int| 0 <= j < v@.len() ==> #[trigger] v@[j] == (key_slot(*it.seq()[j].0), *it.seq()[j].1),
                sq == it.seq().unref().take(it.index() as int),
        {
            let (k, q) = p;
            v.push((slot_of(*k), *q));
            proof {
                let ghost old_sq = sq;
                assert(p == it.seq()[it.index() as int]);
                sq = sq.push((*k, *q));
                assert forall|k2: u32| #[trigger] m.contains_key(k2) && old_sq.contains((k2, m[k2])) implies sq.contains((k2, m[k2])) by {
                    let j = choose|j: int| 0 <= j < old_sq.len() && old_sq[j] == (k2, m[k2]);
                    assert(sq[j] == old_sq[j]);
                }
                assert(sq[sq.len() - 1] == (*k, *q));
            }
        }
        proof {
            assert(v@.len() == sq.len());
            assert(sq.len() == m.dom().len());
            assert(sq.no_duplicates());
            assert(forall|j: int| 0 <= j < sq.len() ==> #[trigger] m.contains_key(sq[j].0) && m[sq[j].0] == sq[j].1);
            assert(forall|j: int| 0 <= j < v@.len() ==> #[trigger] v@[j] == (key_slot(sq[j].0), sq[j].1));
            assert(forall|k: u32| #[trigger] m.contains_key(k) ==> sq.contains((k, m[k])));
            assert forall|a: int, b: int| 0 <= a < v@.len() && 0 <= b < v@.len() && a != b implies v@[a].0 != v@[b].0 by {
                if v@[a].0 == v@[b].0 {
                    lemma_slot_key(key_slot(sq[a].0), sq[a].0);
                    lemma_slot_key(key_slot(sq[b].0), sq[b].0);
                    assert(sq[a].0 == sq[b].0);
                    assert(sq[a].1 == m[sq[a].0]);
                    assert(sq[b].1 == m[sq[b].0]);
                    assert(sq[a] == (sq[a].0, sq[a].1));
                    assert(sq[b] == (sq[b].0, sq[b].1));
                    assert(sq[a] == sq[b]);
                }
            }
            assert forall|s: InvSlotId| #[trigger] self@.contains_key(s) implies exists|i: int| 0 <= i < v@.len() && v@[i].0 == s by {
                let k = slot_key(s);
                lemma_slot_key(s, k);
                assert(sq.contains((k, m[k])));
                let j = choose|j: int| 0 <= j < sq.len() && sq[j] == (k, m[k]);
                assert(v@[j].0 == s);
            }
            assert forall|s: InvSlotId| (exists|i: int| 0 <= i < v@.len() && v@[i].0 == s) implies #[trigger] self@.contains_key(s) by {
                let i = choose|i: int| 0 <= i < v@.len() && v@[i].0 == s;
                lemma_slot_key(key_slot(sq[i].0), sq[i].0);
            }
            assert forall|i: int| 0 <= i < v@.len() implies #[trigger] self@[v@[i].0] == v@[i].1 by {
                lemma_slot_key(key_slot(sq[i].0), sq[i].0);
            }
        }
        v
    }

    /// The quantity offered of the item in `slot`, as `HashMap::get` gives it.
    pub fn get(&self, slot: InvSlotId) -> (r: Option<u32>)
        ensures
            r == (if self@.contains_key(slot) { Some(self@[slot]) } else { None::<u32> }),
    {
        let k = key_of(slot);
        match self.quantities.get(&k) {
            Some(q) => Some(*q),
            None => None,
        }
    }

    /// Whether `slot` is offered.
    pub fn contains(&self, slot: InvSlotId) -> (b: bool)
        ensures
            b == self@.contains_key(slot),
    {
        self.get(slot).is_some()
    }

    /// Sets the quantity offered of the item in `slot`, as `HashMap::insert` does.
    pub fn insert(&mut self, slot: InvSlotId, quantity: u32)
        ensures
            final(self)@ == old(self)@.insert(slot, quantity),
    {
        let k = key_of(slot);
        self.quantities.insert(k, quantity);
        proof {
            assert forall|s: InvSlotId| #[trigger] final(self)@.contains_key(s) == old(self)@.insert(slot, quantity).contains_key(s) by {
                if s != slot {
                    lemma_slot_key(s, k);
                    lemma_slot_key(slot, k);
                    assert(slot_key(s) != k) by {
                        if slot_key(s) == k {
                            assert(key_slot(slot_key(s)) == key_slot(slot_key(slot)));
                        }
                    }
                }
            }
            assert forall|s: InvSlotId| #[trigger] final(self)@.contains_key(s) implies final(self)@[s] == old(self)@.insert(slot, quantity)[s] by {
                if s != slot {
                    lemma_slot_key(s, k);
                    lemma_slot_key(slot, k);
                    assert(slot_key(s) != k) by {
                        if slot_key(s) == k {
                            assert(key_slot(slot_key(s)) == key_slot(slot_key(slot)));
                        }
                    }
                }
            }
            assert(final(self)@ =~= old(self)@.insert(slot, quantity));
        }
    }
}

} // verus!
