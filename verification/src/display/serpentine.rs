//! Serpentine addressing: where on the strip each cell of the grid lies.

use vstd::arithmetic::div_mod::{lemma_fundamental_div_mod, lemma_fundamental_div_mod_converse};
use vstd::prelude::*;

verus! {

/// The place of cell `(x, y)` on a strip that is laid out in rows of `width`
/// cells and turns round at the end of each row: odd rows run with `x`, even
/// rows against it.
pub open spec fn serpentine(width: int, x: int, y: int) -> int {
    if y % 2 == 1 {
        x + width * y
    } else {
        (width - 1 - x) + width * y
    }
}

/// The cell that lies at place `index` of the strip, as `(x, y)`.
pub open spec fn cell_at(width: int, index: int) -> (int, int) {
    let y = index / width;
    let along = index % width;
    if y % 2 == 1 {
        (along, y)
    } else {
        (width - 1 - along, y)
    }
}

/// Every cell of a `width` by `height` grid has a place on the strip of
/// `width * height` samples, and `cell_at` finds the cell again from its
/// place: no two cells share one.
pub proof fn lemma_serpentine_into(width: int, height: int, x: int, y: int)
    requires
        0 <= x < width,
        0 <= y < height,
    ensures
        0 <= serpentine(width, x, y) < width * height,
        cell_at(width, serpentine(width, x, y)) == (x, y),
{
    let along = if y % 2 == 1 {
        x
    } else {
        width - 1 - x
    };
    let index = serpentine(width, x, y);
    assert(index == y * width + along) by (nonlinear_arith)
        requires
            index == along + width * y,
    ;
    lemma_fundamental_div_mod_converse(index, width, y, along);
    assert(width * y + width <= width * height) by (nonlinear_arith)
        requires
            0 < width,
            y + 1 <= height,
    ;
    assert(0 <= width * y) by (nonlinear_arith)
        requires
            0 < width,
            0 <= y,
    ;
}

/// Every place on the strip of `width * height` samples holds a cell of the
/// grid, and `serpentine` leads from that cell back to the place.
pub proof fn lemma_serpentine_onto(width: int, height: int, index: int)
    requires
        0 < width,
        0 <= index < width * height,
    ensures
        0 <= cell_at(width, index).0 < width,
        0 <= cell_at(width, index).1 < height,
        serpentine(width, cell_at(width, index).0, cell_at(width, index).1) == index,
{
    let y = index / width;
    let along = index % width;
    lemma_fundamental_div_mod(index, width);
    assert(0 <= along < width);
    assert(0 <= y) by (nonlinear_arith)
        requires
            index == width * y + along,
            0 <= index,
            along < width,
            0 < width,
    ;
    assert(y < height) by (nonlinear_arith)
        requires
            index == width * y + along,
            index < width * height,
            0 <= along,
            0 < width,
    ;
}

/// Along an odd row the place grows with `x`; along an even row it falls.
pub proof fn lemma_serpentine_monotone(width: int, x1: int, x2: int, y: int)
    requires
        x1 < x2,
    ensures
        y % 2 == 1 ==> serpentine(width, x1, y) < serpentine(width, x2, y),
        y % 2 != 1 ==> serpentine(width, x1, y) > serpentine(width, x2, y),
{
}

/// Two cells of the grid with the same place on the strip are the same cell.
pub proof fn lemma_serpentine_injective(width: int, x1: int, y1: int, x2: int, y2: int)
    requires
        0 <= x1 < width,
        0 <= x2 < width,
        0 <= y1,
        0 <= y2,
        serpentine(width, x1, y1) == serpentine(width, x2, y2),
    ensures
        x1 == x2,
        y1 == y2,
{
    lemma_serpentine_into(width, y1 + 1, x1, y1);
    lemma_serpentine_into(width, y2 + 1, x2, y2);
}

} // verus!
