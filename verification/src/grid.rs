//! Grids stored row by row: the cell in column `col` of row `row` of a grid
//! `width` wide is at `row * width + col`.

use vstd::arithmetic::div_mod::lemma_fundamental_div_mod;
use vstd::arithmetic::div_mod::lemma_fundamental_div_mod_converse;
use vstd::arithmetic::div_mod::lemma_mod_pos_bound;
use vstd::prelude::*;

verus! {

/// Cell `k` of a grid of the given width lies in column `col` and in one of
/// the rows `[top, bottom)`.
pub open spec fn in_span(k: int, width: int, col: int, top: int, bottom: int) -> bool {
    k % width == col && top <= k / width < bottom
}

/// The cell of a column and a row stands at `row * width + col`, and no other
/// cell has that column and that row.
pub proof fn lemma_cell_index(width: int, col: int, row: int)
    requires
        0 <= col < width,
        0 <= row,
    ensures
        (row * width + col) % width == col,
        (row * width + col) / width == row,
        forall|k: int|
            0 <= k ==> (#[trigger] in_span(k, width, col, row, row + 1) <==> k == row * width
                + col),
{
    lemma_fundamental_div_mod_converse(row * width + col, width, row, col);
    assert forall|k: int| 0 <= k implies (#[trigger] in_span(k, width, col, row, row + 1) <==> k
        == row * width + col) by {
        lemma_fundamental_div_mod(k, width);
        assert(width * (k / width) == (k / width) * width) by (nonlinear_arith);
    }
}

/// A cell of a grid has an index below the grid's size.
pub proof fn lemma_cell_in_grid(width: int, height: int, col: int, row: int)
    requires
        0 <= col < width,
        0 <= row < height,
    ensures
        0 <= row * width + col < width * height,
        0 <= row * width <= width * height,
{
    assert(0 <= row * width && row * width + width <= width * height) by (nonlinear_arith)
        requires
            0 <= row < height,
            0 < width,
    ;
}

/// An index below a grid's size has a column and a row in the grid.
pub proof fn lemma_index_in_grid(width: int, height: int, k: int)
    requires
        0 <= k < width * height,
        0 <= width,
        0 <= height,
    ensures
        0 < width,
        0 <= k % width < width,
        0 <= k / width < height,
{
    assert(0 < width) by (nonlinear_arith)
        requires
            0 <= k < width * height,
            0 <= width,
    ;
    lemma_fundamental_div_mod(k, width);
    lemma_mod_pos_bound(k, width);
    let q = k / width;
    assert(0 <= q < height) by (nonlinear_arith)
        requires
            0 <= k < width * height,
            0 < width,
            k == width * q + k % width,
            0 <= k % width < width,
    ;
}

} // verus!
