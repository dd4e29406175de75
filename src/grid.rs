use crate::pieces::{ChessPiece, Color};
use ndarray::Array2;
use vstd::prelude::*;

verus! {

/// What a board cell holds: nothing, or one piece of one side.
pub type Occupant = Option<(ChessPiece, Color)>;

/// The 8x8 cells of a board, held in an `ndarray` grid. The grid is only ever
/// created by `empty_cells` or copied by `copy_cells`, so it always has 8 rows
/// of 8 columns.
#[verifier::external_body]
pub struct CellGrid {
    cells: Array2<Occupant>,
}

/// The cells of a grid in row-major order: `[row, col]` is at `row * 8 + col`.
pub uninterp spec fn cells_of(g: CellGrid) -> Seq<Occupant>;

/// Relies on `ndarray::Array2::from_elem`: an 8x8 grid with every cell empty.
#[verifier::external_body]
pub(crate) fn empty_cells() -> (r: CellGrid)
    ensures
        cells_of(r) == Seq::new(64, |i: int| None::<(ChessPiece, Color)>),
{
    CellGrid { cells: Array2::from_elem([8, 8], None) }
}

/// Relies on `Index<[usize; 2]>` of `ndarray::Array2`: reads cell `[row, col]`.
#[verifier::external_body]
pub(crate) fn cell_at(g: &CellGrid, row: usize, col: usize) -> (r: Occupant)
    requires
        cells_of(*g).len() == 64,
        row < 8,
        col < 8,
    ensures
        r == cells_of(*g)[row * 8 + col],
{
    g.cells[[row, col]]
}

/// Relies on `IndexMut<[usize; 2]>` of `ndarray::Array2`: overwrites cell `[row, col]`.
#[verifier::external_body]
pub(crate) fn set_cell(g: &mut CellGrid, row: usize, col: usize, v: Occupant)
    requires
        cells_of(*old(g)).len() == 64,
        row < 8,
        col < 8,
    ensures
        cells_of(*final(g)) == cells_of(*old(g)).update(row * 8 + col, v),
{
    g.cells[[row, col]] = v;
}

/// Relies on `Clone` of `ndarray::Array2`: a copy with its own storage.
#[verifier::external_body]
pub(crate) fn copy_cells(g: &CellGrid) -> (r: CellGrid)
    ensures
        cells_of(r) == cells_of(*g),
{
    CellGrid { cells: g.cells.clone() }
}

/// An 8x8 mask of destination squares, held in an `ndarray` grid. The grid is
/// only ever created by `blank_marks`, so it always has 8 rows of 8 columns.
#[verifier::external_body]
pub struct MoveMask {
    marks: Array2<bool>,
}

/// The marks of a grid in row-major order: `[row, col]` is at `row * 8 + col`.
pub uninterp spec fn marks_of(g: MoveMask) -> Seq<bool>;

/// Relies on `ndarray::Array2::from_elem`: an 8x8 grid with no cell marked.
#[verifier::external_body]
pub(crate) fn blank_marks() -> (r: MoveMask)
    ensures
        marks_of(r) == Seq::new(64, |i: int| false),
{
    MoveMask { marks: Array2::from_elem([8, 8], false) }
}

/// Relies on `Index<[usize; 2]>` of `ndarray::Array2`: reads mark `[row, col]`.
#[verifier::external_body]
pub(crate) fn mark_at(g: &MoveMask, row: usize, col: usize) -> (r: bool)
    requires
        marks_of(*g).len() == 64,
        row < 8,
        col < 8,
    ensures
        r == marks_of(*g)[row * 8 + col],
{
    g.marks[[row, col]]
}

/// Relies on `IndexMut<[usize; 2]>` of `ndarray::Array2`: sets mark `[row, col]`.
#[verifier::external_body]
pub(crate) fn set_mark(g: &mut MoveMask, row: usize, col: usize)
    requires
        marks_of(*old(g)).len() == 64,
        row < 8,
        col < 8,
    ensures
        marks_of(*final(g)) == marks_of(*old(g)).update(row * 8 + col, true),
{
    g.marks[[row, col]] = true;
}

} // verus!
