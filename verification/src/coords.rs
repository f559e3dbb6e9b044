//! Grid coordinates (origin at the bottom-left cell, `y` growing upwards) and
//! their relation to LDtk's cell indices (origin at the top-left cell).
use vstd::prelude::*;

verus! {

/// A cell of a level, by column `x` and row `y` counted from the bottom-left corner.
#[derive(Clone, Copy, Debug, Default, PartialEq, Eq, Hash, Structural)]
pub struct GridCoords {
    pub x: i32,
    pub y: i32,
}

/// Row `y` of a grid `height` rows high, counted from the other edge.
pub open spec fn flip_row(y: int, height: int) -> int {
    height - y - 1
}

/// Indexing `index` into a `w` by `h` grid does not overflow: the product
/// `w * h` fits in `u32` and, where the cell exists, its flipped row fits in `i32`.
pub open spec fn index_to_coords_fits(index: usize, w: u32, h: u32) -> bool {
    &&& w * h <= u32::MAX
    &&& w * h != 0 && (index as u32) / w < h ==> i32::MIN <= flip_row(
        ((index as u32) / w) as i32 as int,
        h as i32 as int,
    ) <= i32::MAX
}

/// The cell that LDtk's row-major index `index` names in a `w` by `h` grid,
/// if the index lies in the grid (the index is first cut to `u32`).
pub open spec fn index_to_coords(index: usize, w: u32, h: u32) -> Option<GridCoords> {
    if w * h == 0 {
        None
    } else {
        let i = index as u32;
        let row = i / w;
        if h > row {
            Some(
                GridCoords {
                    x: (i % w) as i32,
                    y: flip_row(row as i32 as int, h as i32 as int) as i32,
                },
            )
        } else {
            None
        }
    }
}

/// LDtk row of `c` in a grid of `h` rows.
pub open spec fn ldtk_row(c: GridCoords, h: u32) -> int {
    flip_row(c.y as int, h as i32 as int)
}

/// Flipping row `y` in a grid of `height` rows, as `height - y - 1` evaluated
/// left to right in `i32`, overflows at neither step.
pub open spec fn flip_row_fits(y: int, height: int) -> bool {
    &&& i32::MIN <= height - y <= i32::MAX
    &&& i32::MIN <= flip_row(y, height) <= i32::MAX
}

/// Turning `c` back into an index does not overflow and gives no negative
/// index: the area `w * h` fits in `u32` and, when it is not zero, flipping
/// the row, scaling it by the width and adding the column stay within `i32`.
pub open spec fn coords_to_index_fits(c: GridCoords, w: u32, h: u32) -> bool {
    &&& w * h <= u32::MAX
    &&& w * h != 0 ==> flip_row_fits(c.y as int, h as i32 as int)
    &&& w * h != 0 && ldtk_row(c, h) < h as i32 ==> {
        &&& i32::MIN <= ldtk_row(c, h) * (w as i32 as int) <= i32::MAX
        &&& 0 <= ldtk_row(c, h) * (w as i32 as int) + c.x <= i32::MAX
    }
}

/// LDtk's row-major index of the cell `c`, if its row lies in the grid.
pub open spec fn coords_to_index(c: GridCoords, w: u32, h: u32) -> Option<usize> {
    if w * h == 0 {
        None
    } else if h as i32 <= ldtk_row(c, h) {
        None
    } else {
        Some((ldtk_row(c, h) * (w as i32 as int) + c.x) as usize)
    }
}

/// Calls `bevy_ecs_ldtk::utils::grid_coords_to_ldtk_grid_coords`, which keeps the
/// column and flips the row: `(x, height - y - 1)`, in `i32` arithmetic, left
/// to right, that panics on overflow at either subtraction.
#[verifier::external_body]
fn grid_coords_to_ldtk(coords: GridCoords, ldtk_grid_height: i32) -> (r: (i32, i32))
    requires
        flip_row_fits(coords.y as int, ldtk_grid_height as int),
    ensures
        r.0 == coords.x,
        r.1 == flip_row(coords.y as int, ldtk_grid_height as int),
{
    let v = bevy_ecs_ldtk::utils::grid_coords_to_ldtk_grid_coords(
        bevy_ecs_ldtk::GridCoords { x: coords.x, y: coords.y },
        ldtk_grid_height,
    );
    (v.x, v.y)
}

/// Calls `bevy_ecs_ldtk::utils::int_grid_index_to_grid_coords`: `None` when
/// `w * h` is zero or the row `(index as u32) / w` is not below `h`; else the
/// column `(index as u32) % w` and the flipped row, as [`index_to_coords`] states.
#[verifier::external_body]
fn ldtk_index_to_grid_coords(index: usize, w: u32, h: u32) -> (r: Option<GridCoords>)
    requires
        index_to_coords_fits(index, w, h),
    ensures
        r == index_to_coords(index, w, h),
{
    bevy_ecs_ldtk::utils::int_grid_index_to_grid_coords(index, w, h).map(
        |c| GridCoords { x: c.x, y: c.y },
    )
}

/// The grid coordinates of the cell with LDtk's row-major index `index` in a
/// `w` by `h` grid; `None` when the grid is empty or the index lies past its
/// last row.
pub fn int_grid_index_to_grid_coords(index: usize, w: u32, h: u32) -> (r: Option<GridCoords>)
    requires
        index_to_coords_fits(index, w, h),
    ensures
        r == index_to_coords(index, w, h),
{
    ldtk_index_to_grid_coords(index, w, h)
}

/// LDtk's row-major index of the cell at `grid_coords`; `None` when the grid
/// is empty or the cell lies above the grid's top row.
pub fn grid_coords_to_int_grid_index(
    grid_coords: &GridCoords,
    layer_width_in_tiles: u32,
    layer_height_in_tiles: u32,
) -> (r: Option<usize>)
    requires
        coords_to_index_fits(*grid_coords, layer_width_in_tiles, layer_height_in_tiles),
    ensures
        r == coords_to_index(*grid_coords, layer_width_in_tiles, layer_height_in_tiles),
{
    if layer_width_in_tiles * layer_height_in_tiles == 0 {
        return None;
    }
    let height = #[verifier::truncate] (layer_height_in_tiles as i32);
    let (tile_x, inverted_y) = grid_coords_to_ldtk(*grid_coords, height);
    if height <= inverted_y {
        return None;
    };
    let index = inverted_y * (#[verifier::truncate] (layer_width_in_tiles as i32)) + tile_x;
    Some(index as usize)
}

/// Whether an index can be turned into the coordinates of its cell in a `w` by
/// `h` grid without overflow (see [`index_to_coords_fits`]).
pub fn int_grid_index_to_grid_coords_fits(index: usize, w: u32, h: u32) -> (r: bool)
    ensures
        r == index_to_coords_fits(index, w, h),
{
    assert(w as u64 * h as u64 <= 0xffff_ffff * 0xffff_ffff) by (nonlinear_arith)
        requires
            w <= 0xffff_ffff,
            h <= 0xffff_ffff,
    ;
    let area: u64 = w as u64 * h as u64;
    if area > u32::MAX as u64 {
        return false;
    }
    if area == 0 {
        return true;
    }
    assert(w != 0) by (nonlinear_arith)
        requires
            area == w * h,
            area != 0,
    ;
    let row: u32 = (#[verifier::truncate] (index as u32)) / w;
    if row >= h {
        return true;
    }
    let flipped: i64 = (#[verifier::truncate] (h as i32)) as i64 - (#[verifier::truncate] (
    row as i32)) as i64 - 1;
    i32::MIN as i64 <= flipped && flipped <= i32::MAX as i64
}

/// Whether [`grid_coords_to_int_grid_index`] can be called on these arguments.
pub fn grid_coords_to_int_grid_index_fits(
    grid_coords: &GridCoords,
    layer_width_in_tiles: u32,
    layer_height_in_tiles: u32,
) -> (r: bool)
    ensures
        r == coords_to_index_fits(*grid_coords, layer_width_in_tiles, layer_height_in_tiles),
{
    let w = layer_width_in_tiles;
    let h = layer_height_in_tiles;
    assert(w as u64 * h as u64 <= 0xffff_ffff * 0xffff_ffff) by (nonlinear_arith)
        requires
            w <= 0xffff_ffff,
            h <= 0xffff_ffff,
    ;
    let area: u64 = w as u64 * h as u64;
    if area > u32::MAX as u64 {
        return false;
    }
    if area == 0 {
        return true;
    }
    let height: i64 = (#[verifier::truncate] (h as i32)) as i64;
    let partial: i64 = height - grid_coords.y as i64;
    if partial < i32::MIN as i64 || partial > i32::MAX as i64 {
        return false;
    }
    let row: i64 = partial - 1;
    if row < i32::MIN as i64 || row > i32::MAX as i64 {
        return false;
    }
    if row < height {
        let width: i64 = (#[verifier::truncate] (w as i32)) as i64;
        assert(-0x8000_0000 * 0x8000_0000 <= row * width <= 0x8000_0000 * 0x8000_0000)
            by (nonlinear_arith)
            requires
                -0x8000_0000 <= row <= 0x7fff_ffff,
                -0x8000_0000 <= width <= 0x7fff_ffff,
        ;
        let product: i64 = row * width;
        if product < i32::MIN as i64 || product > i32::MAX as i64 {
            return false;
        }
        let index: i64 = product + grid_coords.x as i64;
        return 0 <= index && index <= i32::MAX as i64;
    }
    true
}

/// Every cell of a grid with at most `i32::MAX` rows goes to its coordinates
/// and back to the same index.
pub proof fn lemma_index_coords_roundtrip(index: usize, w: u32, h: u32)
    requires
        w * h <= u32::MAX,
        index < w * h,
        index <= i32::MAX,
        h <= i32::MAX,
    ensures
        index_to_coords_fits(index, w, h),
        index_to_coords(index, w, h) matches Some(c) && coords_to_index_fits(c, w, h)
            && coords_to_index(c, w, h) == Some(index),
{
    let i = index as int;
    assert(w > 0 && h > 0) by (nonlinear_arith)
        requires
            i < w * h,
            0 <= i,
    ;
    vstd::arithmetic::div_mod::lemma_fundamental_div_mod(i, w as int);
    let row = i / (w as int);
    let col = i % (w as int);
    assert(row < h) by (nonlinear_arith)
        requires
            i < w * h,
            i == w * row + col,
            0 <= col,
            w > 0,
    ;
    assert(index as u32 == index);
    assert(0 <= row * (w as int) <= i) by (nonlinear_arith)
        requires
            i == w * row + col,
            0 <= col,
            0 <= row,
    ;
    assert(col <= i) by (nonlinear_arith)
        requires
            i == w * row + col,
            0 <= row,
            w > 0,
    ;
    let c = GridCoords { x: col as i32, y: (h - row - 1) as i32 };
    assert(index_to_coords(index, w, h) == Some(c));
    assert(ldtk_row(c, h) == row);
    if w > i32::MAX {
        assert(row == 0) by (nonlinear_arith)
            requires
                i == w * row + col,
                0 <= col,
                0 <= row,
                i <= i32::MAX,
                w > i32::MAX,
        ;
        assert(ldtk_row(c, h) * (w as i32 as int) == 0);
        assert(w * row == 0) by (nonlinear_arith)
            requires
                row == 0,
        ;
    } else {
        assert(w as i32 as int == w);
        assert(ldtk_row(c, h) * (w as i32 as int) == w * row) by (nonlinear_arith)
            requires
                ldtk_row(c, h) == row,
                w as i32 as int == w,
        ;
    }
    assert(c.x == col);
    assert(ldtk_row(c, h) * (w as i32 as int) + c.x == i);
}

} // verus!
