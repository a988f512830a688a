use vstd::prelude::*;

verus! {

/// Hands out entity identifiers, each one larger than the last.
pub struct Entitys {
    pub next_id: usize,
}

impl Entitys {
    /// A fresh allocator whose first identifier is zero.
    pub fn new() -> (r: Self)
        ensures
            r.next_id == 0,
    {
        Self { next_id: 0 }
    }

    /// Returns the next unused identifier and advances the counter.
    pub fn new_id(&mut self) -> (id: usize)
        requires
            old(self).next_id < usize::MAX,
        ensures
            id == old(self).next_id,
            final(self).next_id == old(self).next_id + 1,
    {
        let id: usize = self.next_id;
        self.next_id = self.next_id + 1;
        id
    }
}

} // verus!
