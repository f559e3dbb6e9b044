//! The search for a walk between cells of a level, around its collision cells.
use crate::grid::{
    cell_distance, cell_x, cell_y, cells_convert_exactly, distance_fits, int_cell_1d_to_2d_index,
    int_cell_distance, isize_distance, lemma_cell_of, lemma_neighbours_are_adjacent, neighbour_set,
    neighbours_fit,
};
use std::collections::HashSet;
use vstd::prelude::*;

verus! {

broadcast use vstd::std_specs::hash::group_hash_axioms;

/// One move of the search: from `a` to a neighbour `b` that is no collision cell.
pub open spec fn is_step(collisions: Set<usize>, w: usize, h: usize, a: usize, b: usize) -> bool {
    neighbour_set(a, w, h).contains(b) && !collisions.contains(b)
}

/// `path` leads from `start` to `goal` by moves of the search.
pub open spec fn is_walk(
    path: Seq<usize>,
    start: usize,
    goal: usize,
    collisions: Set<usize>,
    w: usize,
    h: usize,
) -> bool {
    &&& path.len() >= 1
    &&& path[0] == start
    &&& path.last() == goal
    &&& forall|k: int|
        0 <= k < path.len() - 1 ==> #[trigger] is_step(collisions, w, h, path[k], path[k + 1])
}

/// Some walk leads from `start` to `goal`.
pub open spec fn reachable(start: usize, goal: usize, collisions: Set<usize>, w: usize, h: usize) -> bool {
    exists|path: Seq<usize>| is_walk(path, start, goal, collisions, w, h)
}

/// The largest cell a search from `start` can reach: the last cell of the grid,
/// or, from a start above the grid, the last cell of the start's row.
pub open spec fn reach_bound(start: usize, w: usize, h: usize) -> int {
    if start < w * h {
        w * h - 1
    } else {
        cell_y(start as int, w as int) * w + w - 1
    }
}

/// The highest row that a search from `start` towards `goal` deals with.
pub open spec fn top_row(start: usize, goal: usize, w: usize, h: usize) -> int {
    let a = reach_bound(start, w, h) / (w as int);
    let b = cell_y(goal as int, w as int);
    if a < b {
        b
    } else {
        a
    }
}

/// The search from `start` to `goal` in a `w` by `h` grid stays within machine
/// limits: every cell it can reach is a `usize` whose neighbours can be
/// computed, every estimate `3 * distance` fits in `isize` arithmetic and, added
/// to the cost of any walk over distinct cells, in `usize`. A search that starts
/// on its goal stops at once and needs none of this.
pub open spec fn search_fits(start: usize, goal: usize, w: usize, h: usize) -> bool {
    start == goal || {
        &&& 0 < w
        &&& 0 < h
        &&& reach_bound(start, w, h) <= usize::MAX
        &&& (w - 1) + top_row(start, goal, w, h) <= isize::MAX
        &&& 3 * ((w - 1) + top_row(start, goal, w, h)) + reach_bound(start, w, h) + 1 <= usize::MAX
    }
}

/// Result of `pathfinding::prelude::astar` on the grid: the path of cells from
/// `start` to `goal` and its cost, or `None`.
pub uninterp spec fn astar_on_grid(
    start: usize,
    goal: usize,
    collisions: Set<usize>,
    w: usize,
    h: usize,
) -> Option<(Seq<usize>, usize)>;

/// Whether [`pathfind`] can be called on these arguments.
pub fn pathfind_fits(start: usize, goal: usize, layer_width_in_tiles: u32, layer_height_in_tiles: u32) -> (r: bool)
    ensures
        r == search_fits(start, goal, layer_width_in_tiles as usize, layer_height_in_tiles as usize),
{
    if start == goal {
        return true;
    }
    if layer_width_in_tiles == 0 || layer_height_in_tiles == 0 {
        return false;
    }
    let ghost (wu, hu) = (layer_width_in_tiles as usize, layer_height_in_tiles as usize);
    let w: u128 = layer_width_in_tiles as u128;
    let h: u128 = layer_height_in_tiles as u128;
    let s: u128 = start as u128;
    let g: u128 = goal as u128;
    assert(w * h <= 0xffff_ffff * 0xffff_ffff) by (nonlinear_arith)
        requires
            w <= 0xffff_ffff,
            h <= 0xffff_ffff,
    ;
    let area: u128 = w * h;
    let row: u128 = s / w;
    proof {
        vstd::arithmetic::div_mod::lemma_fundamental_div_mod(s as int, w as int);
        assert(row * w <= s) by (nonlinear_arith)
            requires
                s == w * row + s % w,
                0 <= s % w,
        ;
    }
    let bound: u128 = if s < area {
        area - 1
    } else {
        row * w + w - 1
    };
    assert(bound == reach_bound(start, wu, hu));
    if bound > usize::MAX as u128 {
        return false;
    }
    let top: u128 = if bound / w < g / w {
        g / w
    } else {
        bound / w
    };
    assert(top == top_row(start, goal, wu, hu));
    let width_and_rows: u128 = (w - 1) + top;
    if width_and_rows > isize::MAX as u128 {
        return false;
    }
    3 * width_and_rows + bound + 1 <= usize::MAX as u128
}

/// The path of a search result as a sequence.
pub open spec fn found_view(r: Option<(Vec<usize>, usize)>) -> Option<(Seq<usize>, usize)> {
    match r {
        Some((path, cost)) => Some((path@, cost)),
        None => None,
    }
}

/// The moves out of `node`: its neighbours (the cells that `get_neighbour_indices`
/// gives) that are no collision cells, each of cost one, in increasing order of
/// the cell, the order in which that neighbour set is walked.
pub fn grid_successors(node: usize, w: usize, h: usize, collisions: &HashSet<usize>) -> (r: Vec<
    (usize, usize),
>)
    requires
        neighbours_fit(node, w, h),
    ensures
        forall|k: int|
            0 <= k < r.len() ==> r[k].1 == 1 && #[trigger] is_step(
                collisions@,
                w,
                h,
                node,
                r[k].0,
            ),
        forall|m: usize|
            #[trigger] is_step(collisions@, w, h, node, m) ==> exists|k: int|
                0 <= k < r.len() && r[k].0 == m,
        forall|j: int, k: int| 0 <= j < k < r.len() ==> r[j].0 < r[k].0,
{
    let (x, y) = int_cell_1d_to_2d_index(node, w);
    proof {
        vstd::arithmetic::div_mod::lemma_fundamental_div_mod(node as int, w as int);
        assert(y > 0 ==> node >= w) by (nonlinear_arith)
            requires
                node == w * y + x,
                x >= 0,
                w > 0,
        ;
    }
    // the neighbours in increasing order: one row back, left, right, one row on
    let mut successors: Vec<(usize, usize)> = Vec::new();
    if y > 0 && !collisions.contains(&(node - w)) {
        successors.push((node - w, 1));
    }
    if x > 0 && !collisions.contains(&(node - 1)) {
        successors.push((node - 1, 1));
    }
    if x < w - 1 && !collisions.contains(&(node + 1)) {
        successors.push((node + 1, 1));
    }
    if y < h - 1 && !collisions.contains(&(node + w)) {
        successors.push((node + w, 1));
    }
    assert forall|m: usize| #[trigger] is_step(collisions@, w, h, node, m) implies exists|k: int|
        0 <= k < successors.len() && successors[k].0 == m by {
        if y > 0 && m == node - w {
            assert(successors[0].0 == m);
        } else if x > 0 && m == node - 1 {
            if y > 0 && !collisions@.contains((node - w) as usize) {
                assert(successors[1].0 == m);
            } else {
                assert(successors[0].0 == m);
            }
        } else if x < w - 1 && m == node + 1 {
            let k = successors.len() - 1 - (if y < h - 1 && !collisions@.contains(
                (node + w) as usize,
            ) {
                1int
            } else {
                0int
            });
            assert(successors[k].0 == m);
        } else {
            assert(successors[successors.len() - 1].0 == m);
        }
    }
    successors
}

/// The search's estimate of the cost from `node` to `goal`: three times their
/// distance, as [`int_cell_distance`] measures it.
pub fn grid_heuristic(node: usize, goal: usize, w: usize) -> (r: usize)
    requires
        distance_fits(node, goal, w),
        3 * isize_distance(node, goal, w) <= usize::MAX,
    ensures
        r == 3 * isize_distance(node, goal, w),
        cells_convert_exactly(node, goal, w) ==> r == 3 * cell_distance(
            node as int,
            goal as int,
            w as int,
        ),
{
    int_cell_distance(node, goal, w) * 3
}

/// The search has arrived.
pub fn reached_goal(node: usize, goal: usize) -> (r: bool)
    ensures
        r == (node == goal),
{
    node == goal
}

/// No walk ends on a collision cell other than its own start: a search into a
/// collision cell finds nothing.
pub proof fn lemma_no_walk_into_collision(
    start: usize,
    goal: usize,
    collisions: Set<usize>,
    w: usize,
    h: usize,
)
    requires
        collisions.contains(goal),
        start != goal,
    ensures
        !reachable(start, goal, collisions, w, h),
{
    assert forall|path: Seq<usize>| !is_walk(path, start, goal, collisions, w, h) by {
        if is_walk(path, start, goal, collisions, w, h) {
            assert(path.len() >= 2);
            let k = path.len() - 2;
            assert(is_step(collisions, w, h, path[k], path[k + 1]));
        }
    }
}

/// A walk that starts inside the grid stays inside it, and each of its moves
/// goes to a cell at Manhattan distance one.
pub proof fn lemma_walk_moves_one_cell(
    path: Seq<usize>,
    start: usize,
    goal: usize,
    collisions: Set<usize>,
    w: usize,
    h: usize,
)
    requires
        is_walk(path, start, goal, collisions, w, h),
        start < w * h,
    ensures
        forall|k: int| 0 <= k < path.len() ==> #[trigger] path[k] < w * h,
        forall|k: int|
            0 <= k < path.len() - 1 ==> cell_distance(
                #[trigger] path[k] as int,
                path[k + 1] as int,
                w as int,
            ) == 1,
{
    assert(0 < w && 0 < h) by (nonlinear_arith)
        requires
            start < w * h,
    ;
    assert forall|k: int| 0 <= k < path.len() implies #[trigger] path[k] < w * h by {
        lemma_walk_prefix_in_grid(path, start, goal, collisions, w, h, k);
    }
    assert forall|k: int| 0 <= k < path.len() - 1 implies cell_distance(
        #[trigger] path[k] as int,
        path[k + 1] as int,
        w as int,
    ) == 1 by {
        assert(is_step(collisions, w, h, path[k], path[k + 1]));
        lemma_walk_prefix_in_grid(path, start, goal, collisions, w, h, k);
        lemma_walk_prefix_in_grid(path, start, goal, collisions, w, h, k + 1);
        lemma_neighbours_are_adjacent(path[k], path[k + 1], w, h);
    }
}

/// The `k`-th cell of a walk that starts inside the grid is inside the grid.
proof fn lemma_walk_prefix_in_grid(
    path: Seq<usize>,
    start: usize,
    goal: usize,
    collisions: Set<usize>,
    w: usize,
    h: usize,
    k: int,
)
    requires
        is_walk(path, start, goal, collisions, w, h),
        start < w * h,
        0 < w,
        0 < h,
        0 <= k < path.len(),
    ensures
        path[k] < w * h,
    decreases k,
{
    if k > 0 {
        lemma_walk_prefix_in_grid(path, start, goal, collisions, w, h, k - 1);
        let j = k - 1;
        let a = path[j];
        let b = path[j + 1];
        assert(is_step(collisions, w, h, a, b));
        lemma_neighbours_stay_in_grid(a, b, w, h);
    }
}

/// The neighbours of a cell inside the grid are inside the grid.
proof fn lemma_neighbours_stay_in_grid(a: usize, b: usize, w: usize, h: usize)
    requires
        a < w * h,
        0 < w,
        neighbour_set(a, w, h).contains(b),
    ensures
        b < w * h,
{
    let (ai, ww, hh) = (a as int, w as int, h as int);
    vstd::arithmetic::div_mod::lemma_fundamental_div_mod(ai, ww);
    let x = cell_x(ai, ww);
    let y = cell_y(ai, ww);
    assert(0 <= x < ww);
    assert(0 <= y) by (nonlinear_arith)
        requires
            ai == ww * y + x,
            0 <= ai,
            x < ww,
            0 < ww,
    ;
    if y < hh - 1 && b == a + w {
        assert(ai + ww < ww * hh) by (nonlinear_arith)
            requires
                ai == ww * y + x,
                y < hh - 1,
                x < ww,
                0 < ww,
                0 <= y,
        ;
    }
    if x < ww - 1 && b == a + 1 {
        assert(y < hh) by (nonlinear_arith)
            requires
                ai == ww * y + x,
                ai < ww * hh,
                0 <= x,
                0 < ww,
        ;
        assert(ai + 1 < ww * hh) by (nonlinear_arith)
            requires
                ai == ww * y + x,
                y < hh,
                x < ww - 1,
                0 < ww,
                0 <= y,
                0 <= x,
        ;
    }
}

/// Each move of the search goes to a cell at distance one, inside the grid or not.
proof fn lemma_step_moves_one_cell(a: usize, b: usize, w: usize, h: usize)
    requires
        0 < w,
        neighbour_set(a, w, h).contains(b),
    ensures
        cell_distance(a as int, b as int, w as int) == 1,
{
    let (ai, bi, ww) = (a as int, b as int, w as int);
    vstd::arithmetic::div_mod::lemma_fundamental_div_mod(ai, ww);
    let x = cell_x(ai, ww);
    let y = cell_y(ai, ww);
    assert(0 <= x < ww);
    if x > 0 && bi == ai - 1 {
        lemma_cell_of(bi, ww, y, x - 1);
    } else if x < ww - 1 && bi == ai + 1 {
        lemma_cell_of(bi, ww, y, x + 1);
    } else if y > 0 && bi == ai - ww {
        assert(bi == ww * (y - 1) + x) by (nonlinear_arith)
            requires
                ai == ww * y + x,
                bi == ai - ww,
        ;
        lemma_cell_of(bi, ww, y - 1, x);
    } else {
        assert(bi == ww * (y + 1) + x) by (nonlinear_arith)
            requires
                ai == ww * y + x,
                bi == ai + ww,
        ;
        lemma_cell_of(bi, ww, y + 1, x);
    }
}

/// No walk is shorter than the distance between its ends: every walk from
/// `start` to `goal` makes at least `cell_distance(start, goal)` moves. This is
/// why a third of the search's estimate never exceeds the moves still to make.
pub proof fn lemma_walk_at_least_distance(
    path: Seq<usize>,
    start: usize,
    goal: usize,
    collisions: Set<usize>,
    w: usize,
    h: usize,
)
    requires
        0 < w,
        is_walk(path, start, goal, collisions, w, h),
    ensures
        cell_distance(start as int, goal as int, w as int) <= path.len() - 1,
{
    lemma_walk_prefix_distance(path, start, goal, collisions, w, h, path.len() - 1);
}

/// The `k`-th cell of a walk is at most `k` away from its start.
proof fn lemma_walk_prefix_distance(
    path: Seq<usize>,
    start: usize,
    goal: usize,
    collisions: Set<usize>,
    w: usize,
    h: usize,
    k: int,
)
    requires
        0 < w,
        is_walk(path, start, goal, collisions, w, h),
        0 <= k < path.len(),
    ensures
        cell_distance(start as int, path[k] as int, w as int) <= k,
    decreases k,
{
    if k > 0 {
        lemma_walk_prefix_distance(path, start, goal, collisions, w, h, k - 1);
        let j = k - 1;
        assert(is_step(collisions, w, h, path[j], path[j + 1]));
        lemma_step_moves_one_cell(path[j], path[j + 1], w, h);
    }
}

/// The row of every cell up to the bound ends at or before the bound, and the
/// bound is at least the last cell of the grid.
proof fn lemma_rows_within_bound(start: usize, w: usize, h: usize, n: int)
    requires
        0 < w,
        0 < h,
        0 <= n <= reach_bound(start, w, h),
    ensures
        cell_y(n, w as int) * w + w - 1 <= reach_bound(start, w, h),
        w * h - 1 <= reach_bound(start, w, h),
        0 <= cell_y(n, w as int) <= reach_bound(start, w, h) / (w as int),
{
    let (ww, hh) = (w as int, h as int);
    let b = reach_bound(start, w, h);
    let y = cell_y(n, ww);
    vstd::arithmetic::div_mod::lemma_fundamental_div_mod(n, ww);
    assert(0 <= y) by (nonlinear_arith)
        requires
            n == ww * y + cell_x(n, ww),
            0 <= n,
            cell_x(n, ww) < ww,
            0 < ww,
    ;
    vstd::arithmetic::div_mod::lemma_div_is_ordered(n, b, ww);
    if start < w * h {
        assert(y < hh) by (nonlinear_arith)
            requires
                n == ww * y + cell_x(n, ww),
                n <= ww * hh - 1,
                0 <= cell_x(n, ww),
                0 < ww,
        ;
        assert(y * ww + ww - 1 <= ww * hh - 1) by (nonlinear_arith)
            requires
                y < hh,
                0 < ww,
        ;
    } else {
        let ys = cell_y(start as int, ww);
        vstd::arithmetic::div_mod::lemma_fundamental_div_mod(start as int, ww);
        assert(ys >= hh) by (nonlinear_arith)
            requires
                start as int == ww * ys + cell_x(start as int, ww),
                start as int >= ww * hh,
                cell_x(start as int, ww) < ww,
                0 < ww,
        ;
        assert(b / ww == ys) by {
            vstd::arithmetic::div_mod::lemma_fundamental_div_mod_converse(b, ww, ys, ww - 1);
        }
        assert(y * ww + ww - 1 <= ys * ww + ww - 1) by (nonlinear_arith)
            requires
                y <= ys,
                0 < ww,
        ;
        assert(ww * hh - 1 <= ys * ww + ww - 1) by (nonlinear_arith)
            requires
                ys >= hh,
                0 < ww,
        ;
    }
}

/// A search from `start` towards `goal` that [`search_fits`] never leaves the
/// machine's limits: every cell up to [`reach_bound`] can be expanded and
/// estimated without overflow, and its neighbours are again up to the bound.
pub proof fn lemma_search_stays_within_limits(
    start: usize,
    goal: usize,
    w: usize,
    h: usize,
    n: usize,
    m: usize,
)
    requires
        search_fits(start, goal, w, h),
        start != goal,
        n <= reach_bound(start, w, h),
    ensures
        neighbours_fit(n, w, h),
        distance_fits(n, goal, w),
        cells_convert_exactly(n, goal, w),
        isize_distance(n, goal, w) == cell_distance(n as int, goal as int, w as int),
        3 * cell_distance(n as int, goal as int, w as int) + reach_bound(start, w, h) + 1
            <= usize::MAX,
        neighbour_set(n, w, h).contains(m) ==> m <= reach_bound(start, w, h),
{
    let (ni, gi, ww) = (n as int, goal as int, w as int);
    let b = reach_bound(start, w, h);
    let top = top_row(start, goal, w, h);
    lemma_rows_within_bound(start, w, h, ni);
    vstd::arithmetic::div_mod::lemma_fundamental_div_mod(ni, ww);
    vstd::arithmetic::div_mod::lemma_fundamental_div_mod(gi, ww);
    let x = cell_x(ni, ww);
    let y = cell_y(ni, ww);
    assert(0 <= cell_y(gi, ww)) by (nonlinear_arith)
        requires
            gi == ww * cell_y(gi, ww) + cell_x(gi, ww),
            0 <= gi,
            cell_x(gi, ww) < ww,
            0 < ww,
    ;
    assert(ni + 1 <= y * ww + ww - 1 || x == ww - 1) by (nonlinear_arith)
        requires
            ni == ww * y + x,
            0 <= x < ww,
    ;
    if y < h - 1 {
        assert(ni + ww <= ww * h - 1) by (nonlinear_arith)
            requires
                ni == ww * y + x,
                y < h - 1,
                x < ww,
                0 < ww,
        ;
    }
    assert(cell_distance(ni, gi, ww) <= (ww - 1) + top);
}

/// Calls `pathfinding::prelude::astar` from `start`, with [`grid_successors`] as
/// the moves, [`grid_heuristic`] as the estimate and [`reached_goal`] as the test.
/// Its result is named [`astar_on_grid`]. Its documentation and source show:
/// a found path runs from `start` to `goal` over moves of the search and holds
/// no cell twice; a path is found whenever one exists (the search runs until it
/// has seen every cell it can reach); a search that starts on its goal returns
/// the path `[start]` of cost zero at once; the cost that comes with a path is
/// at least its number of moves (each cell's recorded cost is one more than
/// its parent's was when the parent was expanded) and at most three times the
/// moves of any walk from `start` to `goal`: the estimate is three times a
/// distance that no walk undercuts ([`lemma_walk_at_least_distance`]), and the
/// goal leaves the queue no later than the queued cell of a shortest walk whose
/// cost is already the least, whose key is at most three times that walk's
/// length. Which path is found when several exist, and its exact cost, are
/// left to the name: the estimate can exceed the true cost, so the shortest
/// walk is not promised, and the cost is the goal's recorded cost, which is
/// not shown to equal the number of moves of the path.
#[verifier::external_body]
fn grid_astar(start: usize, goal: usize, collisions: &HashSet<usize>, w: usize, h: usize) -> (r:
    Option<(Vec<usize>, usize)>)
    requires
        search_fits(start, goal, w, h),
    ensures
        found_view(r) == astar_on_grid(start, goal, collisions@, w, h),
        r matches Some((path, cost)) ==> is_walk(path@, start, goal, collisions@, w, h)
            && path@.no_duplicates() && cost >= path@.len() - 1,
        r matches Some((_, cost)) ==> forall|p: Seq<usize>|
            #[trigger] is_walk(p, start, goal, collisions@, w, h) ==> cost <= 3 * (p.len() - 1),
        r is Some <==> reachable(start, goal, collisions@, w, h),
        start == goal ==> found_view(r) == Some((seq![start], 0usize)),
{
    pathfinding::prelude::astar(
        &start,
        |n| grid_successors(*n, w, h, collisions),
        |n| grid_heuristic(*n, goal, w),
        |n| reached_goal(*n, goal),
    )
}

/// Searches a walk from cell `start` to cell `goal` that avoids the collision
/// cells: the cells of the walk, `start` and `goal` included, and its cost; or
/// `None` when no such walk exists.
pub fn pathfind(
    start: &usize,
    goal: &usize,
    collisions: &HashSet<usize>,
    layer_width_in_tiles: &u32,
    layer_height_in_tiles: &u32,
) -> (r: Option<(Vec<usize>, usize)>)
    requires
        search_fits(
            *start,
            *goal,
            *layer_width_in_tiles as usize,
            *layer_height_in_tiles as usize,
        ),
    ensures
        found_view(r) == astar_on_grid(
            *start,
            *goal,
            collisions@,
            *layer_width_in_tiles as usize,
            *layer_height_in_tiles as usize,
        ),
        r matches Some((path, cost)) ==> is_walk(
            path@,
            *start,
            *goal,
            collisions@,
            *layer_width_in_tiles as usize,
            *layer_height_in_tiles as usize,
        ) && path@.no_duplicates() && cost >= path@.len() - 1,
        r matches Some((_, cost)) ==> forall|p: Seq<usize>|
            #[trigger] is_walk(
                p,
                *start,
                *goal,
                collisions@,
                *layer_width_in_tiles as usize,
                *layer_height_in_tiles as usize,
            ) ==> cost <= 3 * (p.len() - 1),
        r is Some <==> reachable(
            *start,
            *goal,
            collisions@,
            *layer_width_in_tiles as usize,
            *layer_height_in_tiles as usize,
        ),
        *start == *goal ==> found_view(r) == Some((seq![*start], 0usize)),
{
    grid_astar(
        *start,
        *goal,
        collisions,
        *layer_width_in_tiles as usize,
        *layer_height_in_tiles as usize,
    )
}

} // verus!
