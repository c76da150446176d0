//! Dense grid storage addressed by (row, col): a cell map, a membership set,
//! and a queue of cells for breadth-first traversal.

use vstd::prelude::*;

use crate::{BoardCoords, Dimensions};

verus! {

/// Number of `true` entries in a sequence of marks.
pub open spec fn count_true(s: Seq<bool>) -> int
    decreases s.len(),
{
    if s.len() == 0 {
        0
    } else {
        count_true(s.drop_last()) + if s[s.len() - 1] {
            1int
        } else {
            0int
        }
    }
}

pub proof fn lemma_count_true_bounds(s: Seq<bool>)
    ensures
        0 <= count_true(s) <= s.len(),
    decreases s.len(),
{
    if s.len() > 0 {
        lemma_count_true_bounds(s.drop_last());
    }
}

pub proof fn lemma_count_true_update(s: Seq<bool>, i: int, v: bool)
    requires
        0 <= i < s.len(),
    ensures
        count_true(s.update(i, v)) == count_true(s) - (if s[i] {
            1int
        } else {
            0int
        }) + (if v {
            1int
        } else {
            0int
        }),
    decreases s.len(),
{
    let t = s.update(i, v);
    if i == s.len() - 1 {
        assert(t.drop_last() =~= s.drop_last());
    } else {
        assert(t.drop_last() =~= s.drop_last().update(i, v));
        lemma_count_true_update(s.drop_last(), i, v);
    }
}

/// Number of `Some` entries in a sequence of cells.
pub open spec fn count_some<T>(s: Seq<Option<T>>) -> int
    decreases s.len(),
{
    if s.len() == 0 {
        0
    } else {
        count_some(s.drop_last()) + if s[s.len() - 1] is Some {
            1int
        } else {
            0int
        }
    }
}

pub proof fn lemma_count_some_bounds<T>(s: Seq<Option<T>>)
    ensures
        0 <= count_some(s) <= s.len(),
    decreases s.len(),
{
    if s.len() > 0 {
        lemma_count_some_bounds(s.drop_last());
    }
}

pub proof fn lemma_count_some_update<T>(s: Seq<Option<T>>, i: int, v: Option<T>)
    requires
        0 <= i < s.len(),
    ensures
        count_some(s.update(i, v)) == count_some(s) - (if s[i] is Some {
            1int
        } else {
            0int
        }) + (if v is Some {
            1int
        } else {
            0int
        }),
    decreases s.len(),
{
    let t = s.update(i, v);
    if i == s.len() - 1 {
        assert(t.drop_last() =~= s.drop_last());
    } else {
        assert(t.drop_last() =~= s.drop_last().update(i, v));
        lemma_count_some_update(s.drop_last(), i, v);
    }
}

/// A value with board dimensions.
pub trait Grid {
    spec fn spec_dims(&self) -> Dimensions;

    fn dims(&self) -> (r: &Dimensions)
        ensures
            *r == self.spec_dims(),
    ;
}

/// Dense map from cells to values, row-major.
#[derive(Clone)]
pub struct GridMap<T> {
    dims: Dimensions,
    cells: Vec<Option<T>>,
}

/// Membership set over the cells of a board.
#[derive(Clone)]
pub struct GridSet {
    dims: Dimensions,
    marks: Vec<bool>,
}

/// First-in, first-out queue of cells.
pub struct GridQueue {
    buffer: Vec<BoardCoords>,
    pop_idx: usize,
}

impl<T> View for GridMap<T> {
    type V = Seq<Option<T>>;

    closed spec fn view(&self) -> Seq<Option<T>> {
        self.cells@
    }
}

impl<T: Copy> GridMap<T> {
    pub open spec fn wf(self) -> bool {
        self@.len() == self.spec_dims().area() && self.spec_dims().bounded()
    }

    pub open spec fn spec_get(self, coords: BoardCoords) -> Option<T> {
        self@[self.spec_dims().spec_index(coords)]
    }

    pub fn new(rows: usize, cols: usize) -> (r: Self)
        requires
            rows <= 16,
            cols <= 16,
        ensures
            r.wf(),
            r.spec_dims() == (Dimensions { rows, cols }),
            r@.len() == rows * cols,
            forall|i: int| 0 <= i < r@.len() ==> r@[i] is None,
    {
        let dims = Dimensions::new(rows, cols);
        proof {
            assert(rows * cols <= 256) by (nonlinear_arith)
                requires
                    rows <= 16,
                    cols <= 16,
            ;
        }
        let n = rows * cols;
        let mut cells: Vec<Option<T>> = Vec::new();
        let mut i: usize = 0;
        while i < n
            invariant
                i <= n,
                cells@.len() == i,
                forall|k: int| 0 <= k < i ==> cells@[k] is None,
            decreases n - i,
        {
            cells.push(None);
            i = i + 1;
        }
        GridMap { dims, cells }
    }

    pub fn like<G: Grid>(other: &G) -> (r: Self)
        requires
            other.spec_dims().bounded(),
        ensures
            r.wf(),
            r.spec_dims() == other.spec_dims(),
            forall|i: int| 0 <= i < r@.len() ==> r@[i] is None,
    {
        Self::new(other.dims().rows, other.dims().cols)
    }

    pub fn get(&self, coords: BoardCoords) -> (r: Option<T>)
        requires
            self.wf(),
            self.spec_dims().spec_contains(coords),
        ensures
            r == self.spec_get(coords),
    {
        proof {
            crate::lemma_index_in_range(self.dims, coords);
        }
        let idx = self.dims.index(coords);
        self.cells[idx]
    }

    pub fn set(&mut self, coords: BoardCoords, value: Option<T>)
        requires
            old(self).wf(),
            old(self).spec_dims().spec_contains(coords),
        ensures
            final(self).wf(),
            final(self).spec_dims() == old(self).spec_dims(),
            final(self)@ == old(self)@.update(old(self).spec_dims().spec_index(coords), value),
            final(self).spec_get(coords) == value,
            forall|c2: BoardCoords|
                old(self).spec_dims().spec_contains(c2) && c2 != coords ==> #[trigger] final(self).spec_get(c2) == old(self).spec_get(c2),
    {
        proof {
            crate::lemma_index_in_range(self.dims, coords);
            crate::lemma_index_coords_roundtrip(self.dims, coords);
        }
        let idx = self.dims.index(coords);
        self.cells.set(idx, value);
        proof {
            assert forall|c2: BoardCoords|
                old(self).spec_dims().spec_contains(c2) && c2 != coords implies #[trigger] final(self).spec_get(c2) == old(self).spec_get(c2) by {
                crate::lemma_index_coords_roundtrip(old(self).spec_dims(), c2);
            }
        }
    }

    pub fn take(&mut self, coords: BoardCoords) -> (r: Option<T>)
        requires
            old(self).wf(),
            old(self).spec_dims().spec_contains(coords),
        ensures
            final(self).wf(),
            final(self).spec_dims() == old(self).spec_dims(),
            r == old(self).spec_get(coords),
            final(self)@ == old(self)@.update(old(self).spec_dims().spec_index(coords), None),
            final(self).spec_get(coords) is None,
            forall|c2: BoardCoords|
                old(self).spec_dims().spec_contains(c2) && c2 != coords ==> #[trigger] final(self).spec_get(c2) == old(self).spec_get(c2),
    {
        proof {
            crate::lemma_index_in_range(self.dims, coords);
            crate::lemma_index_coords_roundtrip(self.dims, coords);
        }
        let idx = self.dims.index(coords);
        let value = self.cells[idx];
        self.cells.set(idx, None);
        proof {
            assert forall|c2: BoardCoords|
                old(self).spec_dims().spec_contains(c2) && c2 != coords implies #[trigger] final(self).spec_get(c2) == old(self).spec_get(c2) by {
                crate::lemma_index_coords_roundtrip(old(self).spec_dims(), c2);
            }
        }
        value
    }

    /// Overwrite this map's contents with another map's of the same size.
    pub fn mirror(&mut self, other: &Self)
        requires
            old(self).wf(),
            other.wf(),
            old(self).spec_dims() == other.spec_dims(),
        ensures
            final(self).wf(),
            final(self).spec_dims() == old(self).spec_dims(),
            final(self)@ =~= other@,
    {
        let n = self.cells.len();
        let mut i: usize = 0;
        while i < n
            invariant
                self.wf(),
                other.wf(),
                self.spec_dims() == old(self).spec_dims(),
                self@.len() == n,
                other@.len() == n,
                i <= n,
                forall|k: int| 0 <= k < i ==> self@[k] == other@[k],
            decreases n - i,
        {
            let value = other.cells[i];
            self.cells.set(i, value);
            i = i + 1;
        }
    }
}

impl<T> Grid for GridMap<T> {
    closed spec fn spec_dims(&self) -> Dimensions {
        self.dims
    }

    fn dims(&self) -> (r: &Dimensions) {
        &self.dims
    }
}

impl View for GridSet {
    type V = Seq<bool>;

    closed spec fn view(&self) -> Seq<bool> {
        self.marks@
    }
}

impl GridSet {
    pub open spec fn wf(self) -> bool {
        self@.len() == self.spec_dims().area() && self.spec_dims().bounded()
    }

    pub open spec fn spec_contains(self, coords: BoardCoords) -> bool {
        self@[self.spec_dims().spec_index(coords)]
    }

    pub fn new(rows: usize, cols: usize) -> (r: Self)
        requires
            rows <= 16,
            cols <= 16,
        ensures
            r.wf(),
            r.spec_dims() == (Dimensions { rows, cols }),
            forall|i: int| 0 <= i < r@.len() ==> !r@[i],
    {
        let dims = Dimensions::new(rows, cols);
        proof {
            assert(rows * cols <= 256) by (nonlinear_arith)
                requires
                    rows <= 16,
                    cols <= 16,
            ;
        }
        let n = rows * cols;
        let mut marks: Vec<bool> = Vec::new();
        let mut i: usize = 0;
        while i < n
            invariant
                i <= n,
                marks@.len() == i,
                forall|k: int| 0 <= k < i ==> !marks@[k],
            decreases n - i,
        {
            marks.push(false);
            i = i + 1;
        }
        GridSet { dims, marks }
    }

    pub fn like<G: Grid>(other: &G) -> (r: Self)
        requires
            other.spec_dims().bounded(),
        ensures
            r.wf(),
            r.spec_dims() == other.spec_dims(),
            forall|i: int| 0 <= i < r@.len() ==> !r@[i],
    {
        Self::new(other.dims().rows, other.dims().cols)
    }

    pub fn contains(&self, coords: BoardCoords) -> (r: bool)
        requires
            self.wf(),
            self.spec_dims().spec_contains(coords),
        ensures
            r == self.spec_contains(coords),
    {
        proof {
            crate::lemma_index_in_range(self.dims, coords);
        }
        let idx = self.dims.index(coords);
        self.marks[idx]
    }

    pub fn is_empty(&self) -> (r: bool)
        requires
            self.wf(),
        ensures
            r == (forall|i: int| 0 <= i < self@.len() ==> !self@[i]),
    {
        let n = self.marks.len();
        let mut i: usize = 0;
        while i < n
            invariant
                self@.len() == n,
                i <= n,
                forall|k: int| 0 <= k < i ==> !self@[k],
            decreases n - i,
        {
            if self.marks[i] {
                return false;
            }
            i = i + 1;
        }
        true
    }

    pub fn insert(&mut self, coords: BoardCoords)
        requires
            old(self).wf(),
            old(self).spec_dims().spec_contains(coords),
        ensures
            final(self).wf(),
            final(self).spec_dims() == old(self).spec_dims(),
            final(self)@ == old(self)@.update(old(self).spec_dims().spec_index(coords), true),
            final(self).spec_contains(coords),
            forall|c2: BoardCoords|
                old(self).spec_dims().spec_contains(c2) && c2 != coords ==> #[trigger] final(self).spec_contains(c2) == old(self).spec_contains(c2),
    {
        proof {
            crate::lemma_index_in_range(self.dims, coords);
            crate::lemma_index_coords_roundtrip(self.dims, coords);
        }
        let idx = self.dims.index(coords);
        self.marks.set(idx, true);
        proof {
            assert forall|c2: BoardCoords|
                old(self).spec_dims().spec_contains(c2) && c2 != coords implies #[trigger] final(self).spec_contains(c2) == old(self).spec_contains(c2) by {
                crate::lemma_index_coords_roundtrip(old(self).spec_dims(), c2);
            }
        }
    }

    pub fn remove(&mut self, coords: BoardCoords)
        requires
            old(self).wf(),
            old(self).spec_dims().spec_contains(coords),
        ensures
            final(self).wf(),
            final(self).spec_dims() == old(self).spec_dims(),
            final(self)@ == old(self)@.update(old(self).spec_dims().spec_index(coords), false),
            !final(self).spec_contains(coords),
            forall|c2: BoardCoords|
                old(self).spec_dims().spec_contains(c2) && c2 != coords ==> #[trigger] final(self).spec_contains(c2) == old(self).spec_contains(c2),
    {
        proof {
            crate::lemma_index_in_range(self.dims, coords);
            crate::lemma_index_coords_roundtrip(self.dims, coords);
        }
        let idx = self.dims.index(coords);
        self.marks.set(idx, false);
        proof {
            assert forall|c2: BoardCoords|
                old(self).spec_dims().spec_contains(c2) && c2 != coords implies #[trigger] final(self).spec_contains(c2) == old(self).spec_contains(c2) by {
                crate::lemma_index_coords_roundtrip(old(self).spec_dims(), c2);
            }
        }
    }
}

impl Grid for GridSet {
    closed spec fn spec_dims(&self) -> Dimensions {
        self.dims
    }

    fn dims(&self) -> (r: &Dimensions) {
        &self.dims
    }
}

impl View for GridQueue {
    type V = Seq<BoardCoords>;

    closed spec fn view(&self) -> Seq<BoardCoords> {
        self.buffer@.skip(self.pop_idx as int)
    }
}

impl GridQueue {
    pub closed spec fn wf(self) -> bool {
        self.pop_idx <= self.buffer@.len()
    }

    pub fn for_grid<G: Grid>(_grid: &G) -> (r: Self)
        ensures
            r.wf(),
            r@ =~= Seq::<BoardCoords>::empty(),
    {
        GridQueue { buffer: Vec::new(), pop_idx: 0 }
    }

    pub fn push(&mut self, coords: BoardCoords)
        requires
            old(self).wf(),
        ensures
            final(self).wf(),
            final(self)@ =~= old(self)@.push(coords),
    {
        self.buffer.push(coords);
    }

    pub fn pop(&mut self) -> (r: Option<BoardCoords>)
        requires
            old(self).wf(),
        ensures
            final(self).wf(),
            old(self)@.len() == 0 ==> r is None && final(self)@ == old(self)@,
            old(self)@.len() > 0 ==> r == Some(old(self)@[0]) && final(self)@ =~= old(self)@.skip(1),
    {
        if self.pop_idx == self.buffer.len() {
            return None;
        }
        let result = self.buffer[self.pop_idx];
        self.pop_idx = self.pop_idx + 1;
        Some(result)
    }
}

} // verus!
