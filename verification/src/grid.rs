//! Square grids of fixed-point values.
//!
//! A grid is a flat vector in row-major order. Scalar grids hold one value
//! per cell (charge, magnet, residuals, trail); vector grids hold a staggered
//! pair per cell: the component crossing the cell's left edge and the one
//! crossing its top edge.
//!
//! Reads past a grid's edge go through [`ScalarGrid::read0`] /
//! [`VecGrid::read0`], which return zero without touching memory, so no
//! access ever resolves to an out-of-range coordinate.

use vstd::prelude::*;
use crate::fixed::{bounded, MAX_GRID_SIZE};

verus! {

/// One staggered cell of a vector grid: the fixed-point field components
/// crossing the cell's left edge (`x`) and top edge (`y`).
#[derive(Clone, Copy, Debug, PartialEq, Eq, Structural)]
pub struct FieldVec {
    pub x: i64,
    pub y: i64,
}

impl FieldVec {
    /// Both components within the stored range.
    pub open spec fn bounded(self) -> bool {
        bounded(self.x as int) && bounded(self.y as int)
    }
}

/// The row-major index of an in-range cell lies inside the flat vector,
/// and well inside `usize` for any supported grid dimension.
pub proof fn lemma_flat_index(size: int, x: int, y: int)
    by (nonlinear_arith)
    requires
        0 <= x < size,
        0 <= y < size,
        size <= MAX_GRID_SIZE as int,
    ensures
        0 <= y * size + x < size * size,
        size * size <= 0x100_0000,
{
}

/// A flat row-major index splits back into its coordinates.
pub proof fn lemma_flat_decompose(size: int, x: int, y: int)
    requires
        0 <= x < size,
        0 <= y,
    ensures
        (y * size + x) % size == x,
        (y * size + x) / size == y,
{
    vstd::arithmetic::div_mod::lemma_fundamental_div_mod_converse(y * size + x, size, y, x);
}

/// The area of a supported grid fits comfortably in `usize`.
pub proof fn lemma_grid_area(size: int)
    by (nonlinear_arith)
    requires
        0 <= size <= MAX_GRID_SIZE as int,
    ensures
        0 <= size * size <= 0x100_0000,
{
}

/// A square grid of fixed-point scalars.
pub struct ScalarGrid {
    data: Vec<i64>,
    size: usize,
}

impl ScalarGrid {
    /// The cells, row-major.
    pub closed spec fn view(&self) -> Seq<i64> {
        self.data@
    }

    /// Cells per axis.
    pub closed spec fn size(&self) -> int {
        self.size as int
    }

    /// Shape and bounds invariant.
    pub open spec fn wf(&self) -> bool {
        &&& self.size() <= MAX_GRID_SIZE as int
        &&& self@.len() == self.size() * self.size()
        &&& forall|i: int| 0 <= i < self@.len() ==> bounded(#[trigger] self@[i] as int)
    }

    /// Whether `(x, y)` lies inside the grid.
    pub open spec fn in_range(&self, x: int, y: int) -> bool {
        0 <= x < self.size() && 0 <= y < self.size()
    }

    /// The value at `(x, y)`.
    pub open spec fn at(&self, x: int, y: int) -> int
        recommends
            self.in_range(x, y),
    {
        self@[y * self.size() + x] as int
    }

    /// The value at `(x, y)`, or zero past the edge.
    pub open spec fn at0(&self, x: int, y: int) -> int {
        if self.in_range(x, y) {
            self.at(x, y)
        } else {
            0
        }
    }

    /// A grid of zeroes.
    pub fn new(size: usize) -> (g: ScalarGrid)
        requires
            size <= MAX_GRID_SIZE,
        ensures
            g.wf(),
            g.size() == size,
            forall|i: int| 0 <= i < g@.len() ==> g@[i] == 0,
    {
        proof {
            lemma_grid_area(size as int);
        }
        let n = size * size;
        let mut data: Vec<i64> = Vec::new();
        let mut i: usize = 0;
        while i < n
            invariant
                i <= n,
                data@.len() == i,
                forall|j: int| 0 <= j < i ==> data@[j] == 0,
            decreases n - i,
        {
            data.push(0);
            i += 1;
        }
        ScalarGrid { data, size }
    }

    /// Cells per axis.
    pub fn dim(&self) -> (r: usize)
        ensures
            r as int == self.size(),
    {
        self.size
    }

    /// Read a cell.
    pub fn get(&self, x: usize, y: usize) -> (r: i64)
        requires
            self.wf(),
            self.in_range(x as int, y as int),
        ensures
            r == self.at(x as int, y as int),
            bounded(r as int),
    {
        proof {
            lemma_flat_index(self.size(), x as int, y as int);
        }
        self.data[y * self.size + x]
    }

    /// Read a cell, or zero if `(x, y)` is past the edge.
    pub fn read0(&self, x: usize, y: usize) -> (r: i64)
        requires
            self.wf(),
        ensures
            r == self.at0(x as int, y as int),
            bounded(r as int),
    {
        if x < self.size && y < self.size {
            proof {
                lemma_flat_index(self.size(), x as int, y as int);
            }
            self.data[y * self.size + x]
        } else {
            0
        }
    }

    /// Overwrite a cell.
    pub fn set(&mut self, x: usize, y: usize, v: i64)
        requires
            old(self).wf(),
            old(self).in_range(x as int, y as int),
            bounded(v as int),
        ensures
            final(self).wf(),
            final(self).size() == old(self).size(),
            final(self)@ == old(self)@.update(y as int * old(self).size() + x as int, v),
    {
        proof {
            lemma_flat_index(self.size(), x as int, y as int);
        }
        let i = y * self.size + x;
        self.data.set(i, v);
    }
}

/// A square grid of staggered vector cells.
pub struct VecGrid {
    data: Vec<FieldVec>,
    size: usize,
}

impl VecGrid {
    /// The cells, row-major.
    pub closed spec fn view(&self) -> Seq<FieldVec> {
        self.data@
    }

    /// Cells per axis.
    pub closed spec fn size(&self) -> int {
        self.size as int
    }

    /// Shape and bounds invariant.
    pub open spec fn wf(&self) -> bool {
        &&& self.size() <= MAX_GRID_SIZE as int
        &&& self@.len() == self.size() * self.size()
        &&& forall|i: int| 0 <= i < self@.len() ==> (#[trigger] self@[i]).bounded()
    }

    /// Whether `(x, y)` lies inside the grid.
    pub open spec fn in_range(&self, x: int, y: int) -> bool {
        0 <= x < self.size() && 0 <= y < self.size()
    }

    /// The cell at `(x, y)`.
    pub open spec fn at(&self, x: int, y: int) -> FieldVec
        recommends
            self.in_range(x, y),
    {
        self@[y * self.size() + x]
    }

    /// The cell at `(x, y)`, or a zero cell past the edge.
    pub open spec fn at0(&self, x: int, y: int) -> FieldVec {
        if self.in_range(x, y) {
            self.at(x, y)
        } else {
            FieldVec { x: 0, y: 0 }
        }
    }

    /// A grid of zero cells.
    pub fn new(size: usize) -> (g: VecGrid)
        requires
            size <= MAX_GRID_SIZE,
        ensures
            g.wf(),
            g.size() == size,
            forall|i: int| 0 <= i < g@.len() ==> g@[i] == (FieldVec { x: 0, y: 0 }),
    {
        proof {
            lemma_grid_area(size as int);
        }
        let n = size * size;
        let mut data: Vec<FieldVec> = Vec::new();
        let mut i: usize = 0;
        while i < n
            invariant
                i <= n,
                data@.len() == i,
                forall|j: int| 0 <= j < i ==> data@[j] == (FieldVec { x: 0, y: 0 }),
            decreases n - i,
        {
            data.push(FieldVec { x: 0, y: 0 });
            i += 1;
        }
        VecGrid { data, size }
    }

    /// Cells per axis.
    pub fn dim(&self) -> (r: usize)
        ensures
            r as int == self.size(),
    {
        self.size
    }

    /// Read a cell.
    pub fn get(&self, x: usize, y: usize) -> (r: FieldVec)
        requires
            self.wf(),
            self.in_range(x as int, y as int),
        ensures
            r == self.at(x as int, y as int),
            r.bounded(),
    {
        proof {
            lemma_flat_index(self.size(), x as int, y as int);
        }
        self.data[y * self.size + x]
    }

    /// Read a cell, or a zero cell if `(x, y)` is past the edge.
    pub fn read0(&self, x: usize, y: usize) -> (r: FieldVec)
        requires
            self.wf(),
        ensures
            r == self.at0(x as int, y as int),
            r.bounded(),
    {
        if x < self.size && y < self.size {
            proof {
                lemma_flat_index(self.size(), x as int, y as int);
            }
            self.data[y * self.size + x]
        } else {
            FieldVec { x: 0, y: 0 }
        }
    }

    /// Overwrite a cell.
    pub fn set(&mut self, x: usize, y: usize, v: FieldVec)
        requires
            old(self).wf(),
            old(self).in_range(x as int, y as int),
            v.bounded(),
        ensures
            final(self).wf(),
            final(self).size() == old(self).size(),
            final(self)@ == old(self)@.update(y as int * old(self).size() + x as int, v),
    {
        proof {
            lemma_flat_index(self.size(), x as int, y as int);
        }
        let i = y * self.size + x;
        self.data.set(i, v);
    }
}

} // verus!
