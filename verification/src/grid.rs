//! Cell indices of a row-major grid: columns, rows, neighbours and distances.
use std::collections::BTreeSet;
use vstd::prelude::*;

verus! {

broadcast use {vstd::std_specs::btree::group_btree_axioms, vstd::laws_cmp::group_laws_cmp};

/// Column of cell `i` in a grid `w` cells wide.
pub open spec fn cell_x(i: int, w: int) -> int {
    i % w
}

/// Row of cell `i` in a grid `w` cells wide.
pub open spec fn cell_y(i: int, w: int) -> int {
    i / w
}

pub open spec fn abs_int(v: int) -> int {
    if v < 0 {
        -v
    } else {
        v
    }
}

/// Manhattan distance between the cells `i1` and `i2`.
pub open spec fn cell_distance(i1: int, i2: int, w: int) -> int {
    abs_int(cell_x(i1, w) - cell_x(i2, w)) + abs_int(cell_y(i1, w) - cell_y(i2, w))
}

/// `n` is one of the cells next to `i`: left and right within the row of `i`,
/// the row below (index `i - w`) when `i` is not in the first row, and the
/// row above (index `i + w`) when `i` lies below the last row `h - 1`.
pub open spec fn is_neighbour(i: int, n: int, w: int, h: int) -> bool {
    let x = cell_x(i, w);
    let y = cell_y(i, w);
    ||| (x > 0 && n == i - 1)
    ||| (x < w - 1 && n == i + 1)
    ||| (y > 0 && n == i - w)
    ||| (y < h - 1 && n == i + w)
}

pub open spec fn neighbour_set(i: usize, w: usize, h: usize) -> Set<usize> {
    Set::new(|n: usize| is_neighbour(i as int, n as int, w as int, h as int))
}

/// The additions that computing the neighbours of `i` performs do not overflow.
pub open spec fn neighbours_fit(i: usize, w: usize, h: usize) -> bool {
    &&& 0 < w
    &&& 0 < h
    &&& cell_x(i as int, w as int) < w - 1 ==> i + 1 <= usize::MAX
    &&& cell_y(i as int, w as int) < h - 1 ==> i + w <= usize::MAX
}

/// A column or row taken as an `isize`, as the `as` conversion does it
/// (wrapping above `isize::MAX`).
pub open spec fn as_isize(v: int) -> int {
    v as usize as isize as int
}

/// Column distance and row distance of two cells, as measured on their
/// columns and rows converted to `isize`.
pub open spec fn isize_differences(i1: usize, i2: usize, w: usize) -> (int, int) {
    (
        as_isize(cell_x(i1 as int, w as int)) - as_isize(cell_x(i2 as int, w as int)),
        as_isize(cell_y(i1 as int, w as int)) - as_isize(cell_y(i2 as int, w as int)),
    )
}

/// The distance measured on the `isize` conversions of columns and rows.
pub open spec fn isize_distance(i1: usize, i2: usize, w: usize) -> int {
    abs_int(isize_differences(i1, i2, w).0) + abs_int(isize_differences(i1, i2, w).1)
}

/// Measuring a distance does not overflow: the width is not zero, each
/// difference and its negation fit in `isize`, and so does their sum.
pub open spec fn distance_fits(i1: usize, i2: usize, w: usize) -> bool {
    &&& 0 < w
    &&& isize::MIN < isize_differences(i1, i2, w).0 <= isize::MAX
    &&& isize::MIN < isize_differences(i1, i2, w).1 <= isize::MAX
    &&& isize_distance(i1, i2, w) <= isize::MAX
}

/// Columns and rows up to `isize::MAX` convert to `isize` unchanged.
pub open spec fn cells_convert_exactly(i1: usize, i2: usize, w: usize) -> bool {
    &&& cell_x(i1 as int, w as int) <= isize::MAX
    &&& cell_x(i2 as int, w as int) <= isize::MAX
    &&& cell_y(i1 as int, w as int) <= isize::MAX
    &&& cell_y(i2 as int, w as int) <= isize::MAX
}

/// Splits a cell index into its column and row.
pub fn int_cell_1d_to_2d_index(cell_index: usize, width_in_cells: usize) -> (r: (usize, usize))
    requires
        width_in_cells > 0,
    ensures
        r.0 == cell_x(cell_index as int, width_in_cells as int),
        r.1 == cell_y(cell_index as int, width_in_cells as int),
{
    let x = cell_index % width_in_cells;
    proof {
        let i = cell_index as int;
        let w = width_in_cells as int;
        vstd::arithmetic::div_mod::lemma_fundamental_div_mod(i, w);
        assert((i - i % w) / w == i / w) by (nonlinear_arith)
            requires
                w > 0,
                i == w * (i / w) + (i % w),
        ;
    }
    let y = (cell_index - x) / width_in_cells;
    (x, y)
}

/// The cells next to `index`, as [`is_neighbour`] defines them.
pub fn get_neighbour_indices(index: usize, width_in_cells: usize, height_in_cells: usize) -> (r:
    BTreeSet<usize>)
    requires
        neighbours_fit(index, width_in_cells, height_in_cells),
    ensures
        r@ == neighbour_set(index, width_in_cells, height_in_cells),
{
    let mut neighbours = BTreeSet::new();
    let width = width_in_cells;
    let height = height_in_cells;
    let (x, y) = int_cell_1d_to_2d_index(index, width_in_cells);
    proof {
        vstd::arithmetic::div_mod::lemma_fundamental_div_mod(index as int, width as int);
        assert(y > 0 ==> index >= width) by (nonlinear_arith)
            requires
                index == width * y + x,
                x >= 0,
                width > 0,
        ;
    }
    if x > 0 {
        neighbours.insert(index - 1);
    }
    if x < width - 1 {
        neighbours.insert(index + 1);
    }
    if y > 0 {
        neighbours.insert(index - width);
    }
    if y < height - 1 {
        neighbours.insert(index + width);
    }
    assert(neighbours@ =~= neighbour_set(index, width_in_cells, height_in_cells));
    neighbours
}

/// Manhattan distance between two cells, measured on their columns and rows
/// converted to `isize`; that is the true distance whenever the columns and
/// rows fit in `isize`.
pub fn int_cell_distance(i1: usize, i2: usize, width_in_cells: usize) -> (r: usize)
    requires
        distance_fits(i1, i2, width_in_cells),
    ensures
        r == isize_distance(i1, i2, width_in_cells),
        cells_convert_exactly(i1, i2, width_in_cells) ==> r == cell_distance(
            i1 as int,
            i2 as int,
            width_in_cells as int,
        ),
{
    let (x1, y1) = int_cell_1d_to_2d_index(i1, width_in_cells);
    let (x2, y2) = int_cell_1d_to_2d_index(i2, width_in_cells);
    let dx: isize = x1 as isize - x2 as isize;
    let dy: isize = y1 as isize - y2 as isize;
    let adx: isize = if dx < 0 {
        -dx
    } else {
        dx
    };
    let ady: isize = if dy < 0 {
        -dy
    } else {
        dy
    };
    (adx + ady) as usize
}

/// Column and row of a cell put back together give the cell; a cell inside a
/// `w` by `h` grid has a row below `h`.
pub proof fn lemma_cell_parts(i: int, w: int, h: int)
    requires
        0 <= i,
        0 < w,
    ensures
        i == w * cell_y(i, w) + cell_x(i, w),
        0 <= cell_x(i, w) < w,
        0 <= cell_y(i, w),
        i < w * h ==> cell_y(i, w) < h,
{
    vstd::arithmetic::div_mod::lemma_fundamental_div_mod(i, w);
    let x = cell_x(i, w);
    let y = cell_y(i, w);
    assert(0 <= y) by (nonlinear_arith)
        requires
            i == w * y + x,
            0 <= i,
            x < w,
            0 < w,
    ;
    assert(i < w * h ==> y < h) by (nonlinear_arith)
        requires
            i == w * y + x,
            0 <= x,
            0 < w,
    ;
}

/// A cell written as row `q` and column `r` has exactly that row and column.
pub proof fn lemma_cell_of(n: int, w: int, q: int, r: int)
    requires
        0 <= r < w,
        n == w * q + r,
    ensures
        cell_x(n, w) == r,
        cell_y(n, w) == q,
{
    assert(n == q * w + r) by (nonlinear_arith)
        requires
            n == w * q + r,
    ;
    vstd::arithmetic::div_mod::lemma_fundamental_div_mod_converse(n, w, q, r);
}

/// Converting a `usize` to `isize` keeps it, or takes `usize::MAX + 1` off it.
proof fn lemma_as_isize(v: usize)
    ensures
        as_isize(v as int) == v || as_isize(v as int) == v - usize::MAX - 1,
        v <= isize::MAX ==> as_isize(v as int) == v,
{
    let half: usize = 1usize << ((usize::BITS - 1) as usize);
    assert(v as isize as int == v as int || v as isize as int == v as int - 2 * (half as int))
        by (bit_vector)
        requires
            half == 1usize << ((usize::BITS - 1) as usize),
    ;
    let top: usize = ((half - 1) as usize) | half;
    let max: usize = usize::MAX;
    assert(top as int == 2 * (half as int) - 1 && max as int <= 2 * (half as int) - 1)
        by (bit_vector)
        requires
            half == 1usize << ((usize::BITS - 1) as usize),
            top == ((half - 1) as usize) | half,
    ;
    assert((v as int) as usize == v);
}

/// Neighbourhood inside the grid goes both ways.
pub proof fn lemma_neighbours_symmetric(i: usize, n: usize, w: usize, h: usize)
    requires
        0 < w,
        0 < h,
        i < w * h,
        n < w * h,
    ensures
        neighbour_set(i, w, h).contains(n) <==> neighbour_set(n, w, h).contains(i),
{
    lemma_neighbours_are_adjacent(i, n, w, h);
    lemma_neighbours_are_adjacent(n, i, w, h);
    lemma_distance_symmetric(i, n, w);
}

/// Inside a `w` by `h` grid, a cell at distance one from `i`, as
/// [`int_cell_distance`] measures it, is a neighbour of `i`; and a neighbour of
/// `i` is at measured distance one wherever measuring it does not overflow.
pub proof fn lemma_neighbours_at_measured_distance_one(i: usize, n: usize, w: usize, h: usize)
    requires
        0 < w,
        0 < h,
        i < w * h,
        n < w * h,
    ensures
        isize_distance(i, n, w) == 1 ==> neighbour_set(i, w, h).contains(n),
        distance_fits(i, n, w) && neighbour_set(i, w, h).contains(n) ==> isize_distance(i, n, w)
            == 1,
{
    let (ii, nn, ww, hh) = (i as int, n as int, w as int, h as int);
    lemma_cell_parts(ii, ww, hh);
    lemma_cell_parts(nn, ww, hh);
    lemma_neighbours_are_adjacent(i, n, w, h);
    let (xi, yi) = (cell_x(ii, ww), cell_y(ii, ww));
    let (xn, yn) = (cell_x(nn, ww), cell_y(nn, ww));
    lemma_as_isize(xi as usize);
    lemma_as_isize(xn as usize);
    lemma_as_isize(yi as usize);
    lemma_as_isize(yn as usize);
}

/// The distance between cells is zero exactly from a cell to itself, and the
/// same in both directions.
pub proof fn lemma_distance_symmetric(i1: usize, i2: usize, w: usize)
    requires
        0 < w,
    ensures
        cell_distance(i1 as int, i2 as int, w as int) == cell_distance(i2 as int, i1 as int, w as int),
        cell_distance(i1 as int, i2 as int, w as int) == 0 <==> i1 == i2,
{
    lemma_cell_parts(i1 as int, w as int, 1);
    lemma_cell_parts(i2 as int, w as int, 1);
}

/// Inside a `w` by `h` grid, the neighbours of a cell are exactly the cells at
/// Manhattan distance one from it.
pub proof fn lemma_neighbours_are_adjacent(i: usize, n: usize, w: usize, h: usize)
    requires
        0 < w,
        0 < h,
        i < w * h,
        n < w * h,
    ensures
        neighbour_set(i, w, h).contains(n) <==> cell_distance(i as int, n as int, w as int) == 1,
{
    let (ii, nn, ww, hh) = (i as int, n as int, w as int, h as int);
    lemma_cell_parts(ii, ww, hh);
    lemma_cell_parts(nn, ww, hh);
    let (xi, yi) = (cell_x(ii, ww), cell_y(ii, ww));
    let (xn, yn) = (cell_x(nn, ww), cell_y(nn, ww));
    if is_neighbour(ii, nn, ww, hh) {
        if xi > 0 && nn == ii - 1 {
            lemma_cell_of(nn, ww, yi, xi - 1);
        } else if xi < ww - 1 && nn == ii + 1 {
            lemma_cell_of(nn, ww, yi, xi + 1);
        } else if yi > 0 && nn == ii - ww {
            assert(nn == ww * (yi - 1) + xi) by (nonlinear_arith)
                requires
                    ii == ww * yi + xi,
                    nn == ii - ww,
            ;
            lemma_cell_of(nn, ww, yi - 1, xi);
        } else {
            assert(nn == ww * (yi + 1) + xi) by (nonlinear_arith)
                requires
                    ii == ww * yi + xi,
                    nn == ii + ww,
            ;
            lemma_cell_of(nn, ww, yi + 1, xi);
        }
    }
    if cell_distance(ii, nn, ww) == 1 {
        if yn == yi {
            assert(nn - ii == xn - xi) by (nonlinear_arith)
                requires
                    ii == ww * yi + xi,
                    nn == ww * yn + xn,
                    yn == yi,
            ;
        } else if yn == yi - 1 {
            assert(nn == ii - ww) by (nonlinear_arith)
                requires
                    ii == ww * yi + xi,
                    nn == ww * yn + xn,
                    yn == yi - 1,
                    xn == xi,
            ;
        } else {
            assert(nn == ii + ww) by (nonlinear_arith)
                requires
                    ii == ww * yi + xi,
                    nn == ww * yn + xn,
                    yn == yi + 1,
                    xn == xi,
            ;
        }
        assert(is_neighbour(ii, nn, ww, hh));
    }
}

} // verus!
