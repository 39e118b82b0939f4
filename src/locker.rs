use crate::item::Item;
use crate::shuffle::{is_permutation, permutes};
use vstd::prelude::*;

verus! {

/// The layout of a fresh locker of `n` slots: slot `i` holds the item of participant `i`.
pub open spec fn initial_slots(n: nat) -> Seq<Option<Item>> {
    Seq::new(n, |i: int| Some(Item { belongs_to: i as usize }))
}

/// Every participant whose item is in `a` has its item in `b` too.
pub open spec fn owners_within(a: Seq<Option<Item>>, b: Seq<Option<Item>>) -> bool {
    forall|id: usize| holds(a, id) ==> holds(b, id)
}

/// The slot of `slots` that holds the item of participant `id`.
pub open spec fn slot_of(slots: Seq<Option<Item>>, id: usize) -> int {
    choose|k: int| 0 <= k < slots.len() && slots[k] == Some(Item { belongs_to: id })
}

/// Some slot of `slots` holds the item of participant `id`.
pub open spec fn holds(slots: Seq<Option<Item>>, id: usize) -> bool {
    exists|k: int| 0 <= k < slots.len() && slots[k] == Some(Item { belongs_to: id })
}

/// No two slots hold the item of the same participant.
pub open spec fn owners_unique(slots: Seq<Option<Item>>) -> bool {
    forall|a: int, b: int|
        0 <= a < slots.len() && 0 <= b < slots.len() && #[trigger] slots[a] is Some
            && #[trigger] slots[b] == slots[a] ==> a == b
}

/// The first slot of `slots` that holds the item of participant `id`.
pub open spec fn first_slot_of(slots: Seq<Option<Item>>, id: usize, r: int) -> bool {
    &&& 0 <= r < slots.len()
    &&& slots[r] == Some(Item { belongs_to: id })
    &&& forall|k: int| 0 <= k < r ==> #[trigger] slots[k] != Some(Item { belongs_to: id })
}

/// With owners unique, the slot holding an item is the one `slot_of` names.
pub proof fn lemma_slot_of_unique(slots: Seq<Option<Item>>, id: usize, r: int)
    requires
        owners_unique(slots),
        0 <= r < slots.len(),
        slots[r] == Some(Item { belongs_to: id }),
    ensures
        slot_of(slots, id) == r,
        first_slot_of(slots, id, r),
{
    assert(holds(slots, id));
    let k = slot_of(slots, id);
    assert(slots[k] == slots[r]);
    assert forall|j: int| 0 <= j < r implies #[trigger] slots[j] != Some(Item { belongs_to: id }) by {
        if slots[j] == Some(Item { belongs_to: id }) {
            assert(slots[j] == slots[r]);
        }
    }
}

/// A fresh layout holds each item of `0..n` once.
pub proof fn lemma_initial_slots(n: nat)
    requires
        n <= usize::MAX,
    ensures
        owners_unique(initial_slots(n)),
        forall|id: usize| holds(initial_slots(n), id) <==> id < n,
{
    let s = initial_slots(n);
    assert forall|id: usize| holds(s, id) <==> id < n by {
        if id < n {
            assert(s[id as int] == Some(Item { belongs_to: id }));
        }
    }
    assert forall|a: int, b: int|
        0 <= a < s.len() && 0 <= b < s.len() && #[trigger] s[a] is Some && #[trigger] s[b] == s[a] implies a
        == b by {
        assert(s[a] == Some(Item { belongs_to: a as usize }));
        assert(s[b] == Some(Item { belongs_to: b as usize }));
    }
}

/// A rearrangement keeps which items are present, and keeps them unique.
pub proof fn lemma_permutation_keeps_owners(out: Seq<Option<Item>>, inp: Seq<Option<Item>>)
    requires
        is_permutation(out, inp),
    ensures
        owners_unique(inp) ==> owners_unique(out),
        forall|id: usize| holds(out, id) <==> holds(inp, id),
{
    let (perm, inv) = choose|perm: Seq<int>, inv: Seq<int>| permutes(out, inp, perm, inv);
    assert forall|id: usize| holds(out, id) <==> holds(inp, id) by {
        if holds(out, id) {
            let k = choose|k: int| 0 <= k < out.len() && out[k] == Some(Item { belongs_to: id });
            assert(inp[perm[k]] == out[k]);
        }
        if holds(inp, id) {
            let m = choose|m: int| 0 <= m < inp.len() && inp[m] == Some(Item { belongs_to: id });
            assert(out[inv[m]] == inp[perm[inv[m]]]);
        }
    }
    if owners_unique(inp) {
        assert forall|a: int, b: int|
            0 <= a < out.len() && 0 <= b < out.len() && #[trigger] out[a] is Some && #[trigger] out[b]
                == out[a] implies a == b by {
            assert(inp[perm[a]] == out[a]);
            assert(inp[perm[b]] == out[b]);
            assert(inv[perm[a]] == a);
            assert(inv[perm[b]] == b);
        }
    }
}

/// The locker: an ordered row of slots, each empty or holding one item.
/// The index of a slot is its position.
pub struct Locker {
    pub items: Vec<Option<Item>>,
}

impl Clone for Locker {
    fn clone(&self) -> (r: Locker)
        ensures
            r.items@ == self.items@,
    {
        let mut items: Vec<Option<Item>> = Vec::new();
        let mut i: usize = 0;
        while i < self.items.len()
            invariant
                i <= self.items@.len(),
                items@ == self.items@.subrange(0, i as int),
            decreases self.items@.len() - i,
        {
            items.push(self.items[i]);
            i = i + 1;
        }
        Locker { items }
    }
}

impl Locker {
    /// Some slot holds the item of participant `id`.
    pub open spec fn holds(&self, id: usize) -> bool {
        holds(self.items@, id)
    }

    /// No two slots hold the item of the same participant.
    pub open spec fn owners_unique(&self) -> bool {
        owners_unique(self.items@)
    }

    /// A locker of `items_n` slots where slot `i` holds the item of participant `i`.
    pub fn new(items_n: usize) -> (r: Locker)
        ensures
            r.items@ == initial_slots(items_n as nat),
    {
        let mut items: Vec<Option<Item>> = Vec::new();
        let mut i: usize = 0;
        while i < items_n
            invariant
                i <= items_n,
                items@.len() == i,
                forall|k: int| 0 <= k < i ==> #[trigger] items@[k] == Some(Item { belongs_to: k as usize }),
            decreases items_n - i,
        {
            items.push(Some(Item::new(i)));
            i = i + 1;
        }
        assert(items@ =~= initial_slots(items_n as nat));
        Locker { items }
    }

    /// Exchange the contents of the slots at the given indices.
    pub fn exchange_items(&mut self, idx1: usize, idx2: usize)
        requires
            idx1 < old(self).items@.len(),
            idx2 < old(self).items@.len(),
        ensures
            final(self).items@ == old(self).items@.update(idx1 as int, old(self).items@[idx2 as int]).update(
                idx2 as int,
                old(self).items@[idx1 as int],
            ),
    {
        let a = self.items[idx1];
        let b = self.items[idx2];
        self.items[idx1] = b;
        self.items[idx2] = a;
    }

    /// Empty the slot at the given index and return what it held.
    pub fn remove_item(&mut self, idx: usize) -> (r: Option<Item>)
        requires
            idx < old(self).items@.len(),
        ensures
            r == old(self).items@[idx as int],
            final(self).items@ == old(self).items@.update(idx as int, None),
    {
        let r = self.items[idx];
        self.items[idx] = None;
        r
    }

    /// Index of the first slot that holds the item of participant `belongs`.
    pub fn get_item_idx_by_belongs(&self, belongs: usize) -> (r: usize)
        requires
            self.holds(belongs),
        ensures
            first_slot_of(self.items@, belongs, r as int),
    {
        let mut i: usize = 0;
        while i < self.items.len()
            invariant
                i <= self.items@.len(),
                holds(self.items@, belongs),
                forall|k: int| 0 <= k < i ==> #[trigger] self.items@[k] != Some(Item { belongs_to: belongs }),
            decreases self.items@.len() - i,
        {
            match self.items[i] {
                Some(item) => {
                    if item.is_belongs_to(belongs) {
                        return i;
                    }
                },
                None => {},
            }
            i = i + 1;
        }
        i
    }
}

} // verus!
