//! A fixed-capacity list of board coordinates, reused between calls.

use vstd::prelude::*;
use crate::board::Move;

verus! {

/// An append-only list of at most 64 coordinates, kept in insertion order.
pub struct CellList {
    pub list: [Move; 64],
    pub count: usize,
}

impl CellList {
    /// The logical count does not exceed the storage.
    pub open spec fn wf(&self) -> bool {
        self.count <= 64
    }

    /// The coordinates held, oldest first.
    pub open spec fn view(&self) -> Seq<Move> {
        self.list@.take(self.count as int)
    }

    pub fn push_back(&mut self, cell: Move)
        requires
            old(self).count < 64,
        ensures
            final(self).wf(),
            final(self).count == old(self).count + 1,
            final(self)@ == old(self)@.push(cell),
    {
        self.list[self.count] = cell;
        self.count += 1;
        assert(self@ =~= old(self)@.push(cell));
    }

    pub fn iter(&self) -> (items: Vec<Move>)
        requires
            self.wf(),
        ensures
            items@ == self@,
    {
        let mut items: Vec<Move> = Vec::new();
        let mut i: usize = 0;
        while i < self.count
            invariant
                self.wf(),
                i <= self.count,
                items@ == self.list@.take(i as int),
            decreases self.count - i,
        {
            items.push(self.list[i]);
            i += 1;
            assert(items@ =~= self.list@.take(i as int));
        }
        items
    }
}

impl Default for CellList {
    fn default() -> (l: CellList)
        ensures
            l.wf(),
            l.count == 0,
            l@ == Seq::<Move>::empty(),
            forall|i: int| 0 <= i < 64 ==> l.list[i] == (8usize, 8usize),
    {
        let l = CellList { list: [(8, 8); 64], count: 0 };
        assert(l@ =~= Seq::<Move>::empty());
        l
    }
}

} // verus!
