//! The content store: the table from inode id to inode, kept in ascending
//! order of id.

use vstd::prelude::*;
use crate::inode::{Inode, InodeView};

verus! {

/// One row of the table as a mathematical value.
pub struct Row {
    pub id: u64,
    pub inode: InodeView,
}

/// The ids of `rows` strictly ascend, so no id occurs twice.
pub open spec fn ascending(rows: Seq<Row>) -> bool {
    forall|i: int, j: int| 0 <= i < j < rows.len() ==> rows[i].id < rows[j].id
}

/// Some row of `rows` has the id.
pub open spec fn has_id(rows: Seq<Row>, id: u64) -> bool {
    exists|i: int| 0 <= i < rows.len() && rows[i].id == id
}

/// The index of the row of `rows` that has the id, where there is one.
pub open spec fn index_of(rows: Seq<Row>, id: u64) -> int {
    choose|i: int| 0 <= i < rows.len() && rows[i].id == id
}

/// `at` is where a row with the id stands, or would have to be put, for the
/// ids to ascend: every row before it has a smaller id and no row from it on
/// has.
pub open spec fn is_rank(rows: Seq<Row>, id: u64, at: int) -> bool {
    &&& 0 <= at <= rows.len()
    &&& forall|i: int| 0 <= i < at ==> rows[i].id < id
    &&& forall|i: int| at <= i < rows.len() ==> id <= rows[i].id
}

/// Where a row with the id stands in `rows`, or would have to be put.
pub open spec fn rank(rows: Seq<Row>, id: u64) -> int {
    choose|at: int| is_rank(rows, id, at)
}

/// A table has one rank for an id.
pub proof fn lemma_rank(rows: Seq<Row>, id: u64, at: int)
    requires
        is_rank(rows, id, at),
    ensures
        rank(rows, id) == at,
{
    let other = rank(rows, id);
    assert(is_rank(rows, id, other));
    if other < at {
        assert(rows[other].id < id);
    } else if at < other {
        assert(rows[at].id < id);
    }
}

/// In an ascending table the row `i` is the one that `index_of` names for its id.
pub proof fn lemma_index_of(rows: Seq<Row>, i: int)
    requires
        ascending(rows),
        0 <= i < rows.len(),
    ensures
        has_id(rows, rows[i].id),
        index_of(rows, rows[i].id) == i,
{
    let j = index_of(rows, rows[i].id);
    assert(0 <= j < rows.len() && rows[j].id == rows[i].id);
    if j < i {
        assert(rows[j].id < rows[i].id);
    } else if i < j {
        assert(rows[i].id < rows[j].id);
    }
}

struct Slot {
    id: u64,
    inode: Inode,
}

/// The table of inodes. Each inode is held under an id of its own, and the
/// rows are walked in ascending order of id.
pub struct Store {
    slots: Vec<Slot>,
}

impl View for Store {
    type V = Seq<Row>;

    closed spec fn view(&self) -> Seq<Row> {
        Seq::new(
            self.slots@.len(),
            |i: int| Row { id: self.slots@[i].id, inode: self.slots@[i].inode@ },
        )
    }
}

impl Store {
    /// The rows stand in ascending order of id.
    pub open spec fn wf(&self) -> bool {
        ascending(self@)
    }

    /// Returns a table without rows.
    pub fn new() -> (store: Store)
        ensures
            store.wf(),
            store@ == Seq::<Row>::empty(),
    {
        let store = Store { slots: Vec::new() };
        assert(store@ =~= Seq::<Row>::empty());
        store
    }

    /// Returns the number of rows.
    pub fn len(&self) -> (n: usize)
        ensures
            n == self@.len(),
    {
        self.slots.len()
    }

    /// Finds the id by binary search: `Ok` with the index of its row, or
    /// `Err` with the index at which a row for it would have to be put.
    pub fn position(&self, id: u64) -> (found: Result<usize, usize>)
        requires
            self.wf(),
        ensures
            match found {
                Ok(i) => i < self@.len() && self@[i as int].id == id,
                Err(at) => !has_id(self@, id) && is_rank(self@, id, at as int),
            },
    {
        let mut lo: usize = 0;
        let mut hi: usize = self.slots.len();
        while lo < hi
            invariant
                self.wf(),
                lo <= hi <= self@.len(),
                self@.len() == self.slots@.len(),
                forall|i: int| 0 <= i < lo ==> self@[i].id < id,
                forall|i: int| hi <= i < self@.len() ==> id < self@[i].id,
            decreases hi - lo,
        {
            let mid: usize = lo + (hi - lo) / 2;
            let key: u64 = self.slots[mid].id;
            assert(self@[mid as int].id == key);
            if key == id {
                return Ok(mid);
            } else if key < id {
                lo = mid + 1;
            } else {
                hi = mid;
            }
        }
        Err(lo)
    }

    /// Returns the inode held under the id.
    pub fn get(&self, id: u64) -> (found: Option<&Inode>)
        requires
            self.wf(),
        ensures
            match found {
                Some(inode) => has_id(self@, id) && inode@ == self@[index_of(self@, id)].inode,
                None => !has_id(self@, id),
            },
    {
        match self.position(id) {
            Ok(i) => {
                proof {
                    lemma_index_of(self@, i as int);
                }
                Some(&self.slots[i].inode)
            },
            Err(_) => None,
        }
    }

    /// Returns the inode held under the id, for the caller to change. What
    /// the caller leaves in it is what the table then holds under the id.
    pub fn get_mut(&mut self, id: u64) -> (found: Option<&mut Inode>)
        requires
            old(self).wf(),
        ensures
            final(self).wf(),
            match found {
                Some(inode) => {
                    &&& has_id(old(self)@, id)
                    &&& inode@ == old(self)@[index_of(old(self)@, id)].inode
                    &&& final(self)@ == old(self)@.update(
                        index_of(old(self)@, id),
                        Row { id, inode: final(inode)@ },
                    )
                },
                None => !has_id(old(self)@, id) && final(self)@ == old(self)@,
            },
    {
        match self.position(id) {
            Ok(i) => {
                proof {
                    lemma_index_of(self@, i as int);
                    assert forall|a: int, b: int| 0 <= a < b < self.slots@.len() implies
                        self.slots@[a].id < self.slots@[b].id by {
                        assert(self@[a].id < self@[b].id);
                    }
                }
                Some(&mut self.slots[i].inode)
            },
            Err(_) => None,
        }
    }

    /// Puts the inode under the id, in place of the one that the id held, if
    /// any, which is returned.
    pub fn insert(&mut self, id: u64, inode: Inode) -> (previous: Option<Inode>)
        requires
            old(self).wf(),
        ensures
            final(self).wf(),
            match previous {
                Some(prev) => {
                    &&& has_id(old(self)@, id)
                    &&& prev@ == old(self)@[index_of(old(self)@, id)].inode
                    &&& final(self)@ == old(self)@.update(
                        index_of(old(self)@, id),
                        Row { id, inode: inode@ },
                    )
                },
                None => {
                    &&& !has_id(old(self)@, id)
                    &&& final(self)@ == old(self)@.insert(
                        rank(old(self)@, id),
                        Row { id, inode: inode@ },
                    )
                },
            },
    {
        let ghost before = self@;
        let ghost row = Row { id, inode: inode@ };
        match self.position(id) {
            Ok(i) => {
                proof {
                    lemma_index_of(before, i as int);
                }
                let mut inode = inode;
                core::mem::swap(&mut self.slots[i].inode, &mut inode);
                proof {
                    assert(self@ =~= before.update(i as int, row));
                    assert forall|a: int, b: int| 0 <= a < b < self@.len() implies self@[a].id
                        < self@[b].id by {
                        assert(before[a].id < before[b].id);
                    }
                }
                Some(inode)
            },
            Err(at) => {
                proof {
                    lemma_rank(before, id, at as int);
                }
                self.slots.insert(at, Slot { id, inode });
                proof {
                    assert(self@ =~= before.insert(at as int, row));
                    assert forall|a: int, b: int| 0 <= a < b < self@.len() implies self@[a].id
                        < self@[b].id by {
                        let a0 = if a < at { a } else { a - 1 };
                        let b0 = if b < at { b } else { b - 1 };
                        if a != at && b != at {
                            assert(before[a0].id < before[b0].id);
                        } else if a == at {
                            assert(id <= before[b0].id);
                            assert(!has_id(before, id));
                        } else {
                            assert(before[a0].id < id);
                        }
                    }
                }
                None
            },
        }
    }

    /// Takes the row of the id out of the table and returns its inode.
    pub fn remove(&mut self, id: u64) -> (removed: Option<Inode>)
        requires
            old(self).wf(),
        ensures
            final(self).wf(),
            match removed {
                Some(inode) => {
                    &&& has_id(old(self)@, id)
                    &&& inode@ == old(self)@[index_of(old(self)@, id)].inode
                    &&& final(self)@ == old(self)@.remove(index_of(old(self)@, id))
                },
                None => !has_id(old(self)@, id) && final(self)@ == old(self)@,
            },
    {
        let ghost before = self@;
        match self.position(id) {
            Ok(i) => {
                proof {
                    lemma_index_of(before, i as int);
                }
                let slot = self.slots.remove(i);
                proof {
                    assert(self@ =~= before.remove(i as int));
                    assert forall|a: int, b: int| 0 <= a < b < self@.len() implies self@[a].id
                        < self@[b].id by {
                        let a0 = if a < i { a } else { a + 1 };
                        let b0 = if b < i { b } else { b + 1 };
                        assert(before[a0].id < before[b0].id);
                    }
                }
                Some(slot.inode)
            },
            Err(_) => None,
        }
    }

    /// Returns the row at `index` in ascending order of id: the id and the
    /// inode held under it.
    pub fn row(&self, index: usize) -> (row: Option<(u64, &Inode)>)
        ensures
            match row {
                Some((id, inode)) => {
                    &&& index < self@.len()
                    &&& id == self@[index as int].id
                    &&& inode@ == self@[index as int].inode
                },
                None => index >= self@.len(),
            },
    {
        if index < self.slots.len() {
            Some((self.slots[index].id, &self.slots[index].inode))
        } else {
            None
        }
    }
}

} // verus!
