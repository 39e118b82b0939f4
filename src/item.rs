use vstd::prelude::*;

verus! {

/// An item stored in the locker, identified by the participant owning it.
#[derive(Clone, Copy, PartialEq, Eq, Structural, Debug)]
pub struct Item {
    /// id of the participant it belongs to
    pub belongs_to: usize,
}

impl Item {
    pub fn new(belongs_to: usize) -> (r: Item)
        ensures
            r.belongs_to == belongs_to,
    {
        Item { belongs_to }
    }

    pub fn is_belongs_to(&self, id: usize) -> (r: bool)
        ensures
            r == (self.belongs_to == id),
    {
        self.belongs_to == id
    }
}

} // verus!
