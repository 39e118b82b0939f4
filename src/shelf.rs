use crate::item::Item;
use crate::shuffle::{is_derangement, is_permutation, shuffle};
use rand::rngs::StdRng;
use vstd::prelude::*;

verus! {

/// A shelf: a row of items without empty places. The index of an item is
/// its position on the shelf.
pub struct Shelf {
    pub items: Vec<Item>,
}

impl Shelf {
    /// A shelf of `items_n` items where position `i` holds the item of participant `i`.
    pub fn new(items_n: usize) -> (r: Shelf)
        ensures
            r.items@.len() == items_n,
            forall|i: int| 0 <= i < items_n ==> #[trigger] r.items@[i] == (Item { belongs_to: i as usize }),
    {
        let mut items: Vec<Item> = Vec::new();
        let mut i: usize = 0;
        while i < items_n
            invariant
                i <= items_n,
                items@.len() == i,
                forall|k: int| 0 <= k < i ==> #[trigger] items@[k] == (Item { belongs_to: k as usize }),
            decreases items_n - i,
        {
            items.push(Item::new(i));
            i = i + 1;
        }
        Shelf { items }
    }

    /// The same shelf with its items deranged: with two items or more, none
    /// stays at its position.
    pub fn shuffle(self, rng: &mut StdRng) -> (r: Shelf)
        ensures
            is_permutation(r.items@, self.items@),
            self.items@.len() >= 2 ==> is_derangement(r.items@, self.items@),
            self.items@.len() < 2 ==> r.items@ == self.items@ && *final(rng) == *old(rng),
    {
        let mut shelf = self;
        shuffle(shelf.items.as_mut_slice(), rng);
        shelf
    }

    /// Exchange the items at the given positions.
    pub fn exchange_items(&mut self, idx1: usize, idx2: usize)
        requires
            idx1 < old(self).items@.len(),
            idx2 < old(self).items@.len(),
        ensures
            final(self).items@ == old(self).items@.update(idx1 as int, old(self).items@[idx2 as int]).update(
                idx2 as int,
                old(self).items@[idx1 as int],
            ),
    {
        let a = self.items[idx1];
        let b = self.items[idx2];
        self.items[idx1] = b;
        self.items[idx2] = a;
    }

    /// Take the item at the given position off the shelf; the items after it
    /// move up by one.
    pub fn remove_item(&mut self, idx: usize) -> (r: Item)
        requires
            idx < old(self).items@.len(),
        ensures
            r == old(self).items@[idx as int],
            final(self).items@ == old(self).items@.remove(idx as int),
    {
        self.items.remove(idx)
    }

    /// Position of the first item of participant `belongs`.
    pub fn get_item_idx_by_belongs(&self, belongs: usize) -> (r: usize)
        requires
            exists|k: int| 0 <= k < self.items@.len() && self.items@[k].belongs_to == belongs,
        ensures
            r < self.items@.len(),
            self.items@[r as int].belongs_to == belongs,
            forall|k: int| 0 <= k < r ==> #[trigger] self.items@[k].belongs_to != belongs,
    {
        let mut i: usize = 0;
        while i < self.items.len()
            invariant
                i <= self.items@.len(),
                exists|k: int| 0 <= k < self.items@.len() && self.items@[k].belongs_to == belongs,
                forall|k: int| 0 <= k < i ==> #[trigger] self.items@[k].belongs_to != belongs,
            decreases self.items@.len() - i,
        {
            if self.items[i].is_belongs_to(belongs) {
                return i;
            }
            i = i + 1;
        }
        i
    }
}

} // verus!
