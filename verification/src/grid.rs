//! The dense per-view cell grid.
//!
//! The cells live in an `ndarray` four-dimensional array (face, level of
//! detail, window column, window row). Verus cannot take that type's
//! declaration, so the array sits in a private field of [`CellGrid`] and is
//! reached through a small trusted surface: creation filled with one value,
//! and element access through the array's standard (row-major) layout,
//! named by [`grid_seq`].

use vstd::prelude::*;
use crate::tree::TreeCell;

verus! {

/// A dense four-dimensional array of window cells.
///
/// Constructed filled with one value and only ever mutated cell by cell, so
/// the array keeps `ndarray`'s standard row-major layout throughout.
#[verifier::external_body]
pub struct CellGrid {
    cells: ndarray::Array4<TreeCell>,
}

/// What the grid holds, as one row-major sequence of cells.
pub uninterp spec fn grid_seq(g: &CellGrid) -> Seq<TreeCell>;

impl CellGrid {
    /// Relies on ndarray's `Array4::from_elem`: an array of the given shape
    /// holds `d0·d1·d2·d3` copies of the fill value.
    #[verifier::external_body]
    pub(crate) fn new(d0: usize, d1: usize, d2: usize, d3: usize, fill: TreeCell) -> (g: CellGrid)
        requires
            d0 * d1 * d2 * d3 <= 0x0FFF_FFFF,
        ensures
            grid_seq(&g).len() == d0 * d1 * d2 * d3,
            forall|i: int| 0 <= i < grid_seq(&g).len() ==> grid_seq(&g)[i] == fill,
    {
        CellGrid { cells: ndarray::Array4::from_elem((d0, d1, d2, d3), fill) }
    }

    /// Relies on ndarray's `ArrayBase::len`: the element count of the array.
    #[verifier::external_body]
    pub(crate) fn len(&self) -> (n: usize)
        ensures
            n == grid_seq(self).len(),
    {
        self.cells.len()
    }

    /// Relies on ndarray's `ArrayBase::as_slice`: a standard-layout array
    /// reads back as its row-major element sequence.
    #[verifier::external_body]
    pub(crate) fn get(&self, k: usize) -> (c: TreeCell)
        requires
            k < grid_seq(self).len(),
        ensures
            c == grid_seq(self)[k as int],
    {
        self.cells.as_slice().unwrap()[k]
    }

    /// Relies on ndarray's `ArrayBase::as_slice_mut`: writing one element of
    /// the row-major view of a standard-layout array updates that cell and
    /// no other.
    #[verifier::external_body]
    pub(crate) fn set(&mut self, k: usize, c: TreeCell)
        requires
            k < grid_seq(old(self)).len(),
        ensures
            grid_seq(final(self)) == grid_seq(old(self)).update(k as int, c),
    {
        self.cells.as_slice_mut().unwrap()[k] = c;
    }
}

/// The row-major position of the cell `(i0, i1, i2, i3)` of a grid of shape
/// `(d0, d1, d2, d3)` (the shape's first entry does not enter the formula).
pub open spec fn spec_flat_index(i0: int, i1: int, i2: int, i3: int, d1: int, d2: int, d3: int)
    -> int {
    ((i0 * d1 + i1) * d2 + i2) * d3 + i3
}

/// The row-major position of an in-shape cell lies within the array.
pub proof fn lemma_flat_index_bound(
    i0: int, i1: int, i2: int, i3: int, d0: int, d1: int, d2: int, d3: int,
)
    requires
        0 <= i0 < d0,
        0 <= i1 < d1,
        0 <= i2 < d2,
        0 <= i3 < d3,
    ensures
        0 <= spec_flat_index(i0, i1, i2, i3, d1, d2, d3) < d0 * d1 * d2 * d3,
{
    assert(0 <= ((i0 * d1 + i1) * d2 + i2) * d3 + i3 < d0 * d1 * d2 * d3) by (nonlinear_arith)
        requires
            0 <= i0 < d0,
            0 <= i1 < d1,
            0 <= i2 < d2,
            0 <= i3 < d3,
    ;
}

/// Computes the row-major position of the cell `(i0, i1, i2, i3)` of a grid
/// of shape `(d0, d1, d2, d3)`.
pub fn flat_index(
    i0: usize, i1: usize, i2: usize, i3: usize, d0: usize, d1: usize, d2: usize, d3: usize,
) -> (k: usize)
    requires
        i0 < d0,
        i1 < d1,
        i2 < d2,
        i3 < d3,
        d0 * d1 * d2 * d3 <= usize::MAX,
    ensures
        k == spec_flat_index(i0 as int, i1 as int, i2 as int, i3 as int, d1 as int, d2 as int,
            d3 as int),
        k < d0 * d1 * d2 * d3,
{
    proof {
        assert(i0 * d1 + i1 < d0 * d1 && (i0 * d1 + i1) * d2 + i2 < d0 * d1 * d2 && ((i0 * d1
            + i1) * d2 + i2) * d3 + i3 < d0 * d1 * d2 * d3 && d0 * d1 <= d0 * d1 * d2 * d3 && d0
            * d1 * d2 <= d0 * d1 * d2 * d3) by (nonlinear_arith)
            requires
                0 <= i0 < d0,
                0 <= i1 < d1,
                0 <= i2 < d2,
                0 <= i3 < d3,
        ;
    }
    ((i0 * d1 + i1) * d2 + i2) * d3 + i3
}

} // verus!
