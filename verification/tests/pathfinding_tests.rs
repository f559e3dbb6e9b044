use std::collections::{BTreeSet, HashSet};
use town::coords::{
    grid_coords_to_int_grid_index, grid_coords_to_int_grid_index_fits, int_grid_index_to_grid_coords, GridCoords,
};
use town::grid::{get_neighbour_indices, int_cell_1d_to_2d_index, int_cell_distance};
use town::pathfinding::{grid_heuristic, grid_successors, pathfind, pathfind_fits, reached_goal};

#[test]
fn test_int_1d_to_2d() {
    assert_eq!(int_cell_1d_to_2d_index(0, 3), (0, 0));
    assert_eq!(int_cell_1d_to_2d_index(1, 3), (1, 0));
    assert_eq!(int_cell_1d_to_2d_index(2, 3), (2, 0));
    assert_eq!(int_cell_1d_to_2d_index(3, 3), (0, 1));
    assert_eq!(int_cell_1d_to_2d_index(4, 3), (1, 1));
    assert_eq!(int_cell_1d_to_2d_index(5, 3), (2, 1));
    assert_eq!(int_cell_1d_to_2d_index(6, 3), (0, 2));
    assert_eq!(int_cell_1d_to_2d_index(7, 3), (1, 2));
    assert_eq!(int_cell_1d_to_2d_index(8, 3), (2, 2));
}

#[test]
fn test_get_neighbour_indices() {
    assert_eq!(get_neighbour_indices(0, 3, 3), BTreeSet::from([1, 3]));
    assert_eq!(get_neighbour_indices(1, 3, 3), BTreeSet::from([0, 2, 4]));
    assert_eq!(get_neighbour_indices(2, 3, 3), BTreeSet::from([1, 5]));
    assert_eq!(get_neighbour_indices(3, 3, 3), BTreeSet::from([0, 4, 6]));
    assert_eq!(get_neighbour_indices(4, 3, 3), BTreeSet::from([1, 3, 5, 7]));
    assert_eq!(get_neighbour_indices(5, 3, 3), BTreeSet::from([2, 4, 8]));
    assert_eq!(get_neighbour_indices(6, 3, 3), BTreeSet::from([3, 7]));
    assert_eq!(get_neighbour_indices(7, 3, 3), BTreeSet::from([4, 6, 8]));
    assert_eq!(get_neighbour_indices(8, 3, 3), BTreeSet::from([5, 7]));
}

#[test]
fn test_int_cell_distance() {
    assert_eq!(int_cell_distance(0, 0, 3), 0);
    assert_eq!(int_cell_distance(0, 1, 3), 1);
    assert_eq!(int_cell_distance(0, 2, 3), 2);
    assert_eq!(int_cell_distance(0, 3, 3), 1);
    assert_eq!(int_cell_distance(0, 4, 3), 2);
    assert_eq!(int_cell_distance(0, 5, 3), 3);
}

#[test]
fn test_grid_coords_to_int_grid_index() {
    let width: u32 = 3;
    let height: u32 = 3;
    for i in 0..width * height {
        let i = usize::try_from(i).unwrap();
        assert_eq!(
            bevy_ecs_ldtk::utils::int_grid_index_to_grid_coords(i, width, height)
                .and_then(|cs| grid_coords_to_int_grid_index(&GridCoords { x: cs.x, y: cs.y }, width, height)),
            Some(i)
        );
    }
}

#[test]
fn test_pathfind() {
    let width: u32 = 3;
    let height: u32 = 3;
    let collisions = HashSet::new();
    assert_eq!(pathfind(&0, &8, &collisions, &width, &height), Some((vec![0, 1, 2, 5, 8], 4)));
    // now with some collisions on the way
    let mut collisions = HashSet::new();
    collisions.insert(3);
    collisions.insert(4);
    // only one valid path
    assert_eq!(pathfind(&0, &6, &collisions, &width, &height), Some((vec![0, 1, 2, 5, 8, 7, 6], 6)));
    // now with collisions fully blocking the way
    let mut collisions = HashSet::new();
    collisions.insert(3);
    collisions.insert(4);
    collisions.insert(5);
    assert_eq!(pathfind(&1, &7, &collisions, &width, &height), None);
    // now we try to pathfind INTO a collision
    let mut collisions = HashSet::new();
    collisions.insert(3);
    assert_eq!(pathfind(&0, &3, &collisions, &width, &height), None);
}

#[test]
fn neighbours_of_a_single_row() {
    assert_eq!(get_neighbour_indices(0, 1, 1), BTreeSet::new());
    assert_eq!(get_neighbour_indices(1, 4, 1), BTreeSet::from([0, 2]));
    // a cell above the grid only looks down
    assert_eq!(get_neighbour_indices(10, 3, 3), BTreeSet::from([7, 9, 11]));
}

#[test]
fn neighbours_are_the_cells_at_distance_one_both_ways() {
    let (w, h) = (4usize, 3usize);
    for i in 0..w * h {
        for n in 0..w * h {
            assert_eq!(get_neighbour_indices(i, w, h).contains(&n), int_cell_distance(i, n, w) == 1);
            assert_eq!(
                get_neighbour_indices(i, w, h).contains(&n),
                get_neighbour_indices(n, w, h).contains(&i)
            );
        }
    }
}

#[test]
fn distance_is_symmetric_and_zero_only_on_the_cell() {
    for i in 0..12usize {
        for j in 0..12usize {
            assert_eq!(int_cell_distance(i, j, 4), int_cell_distance(j, i, 4));
            assert_eq!(int_cell_distance(i, j, 4) == 0, i == j);
        }
    }
    assert_eq!(int_cell_distance(3, 8, 4), 3 + 2);
}

#[test]
fn grid_coords_count_rows_from_the_bottom() {
    // LDtk counts rows from the top, grid coordinates from the bottom
    assert_eq!(grid_coords_to_int_grid_index(&GridCoords { x: 0, y: 2 }, 3, 3), Some(0));
    assert_eq!(grid_coords_to_int_grid_index(&GridCoords { x: 2, y: 0 }, 3, 3), Some(8));
    assert_eq!(grid_coords_to_int_grid_index(&GridCoords { x: 1, y: 1 }, 4, 3), Some(5));
    // empty grid
    assert_eq!(grid_coords_to_int_grid_index(&GridCoords { x: 0, y: 0 }, 0, 3), None);
    // below the bottom row is above LDtk's last row
    assert_eq!(grid_coords_to_int_grid_index(&GridCoords { x: 0, y: -1 }, 3, 3), None);
    // the column is not checked: it runs on into the next row
    assert_eq!(grid_coords_to_int_grid_index(&GridCoords { x: 4, y: 2 }, 3, 3), Some(4));
}

#[test]
fn grid_coords_fit_checks() {
    assert!(grid_coords_to_int_grid_index_fits(&GridCoords { x: 1, y: 1 }, 3, 3));
    // a cell above the grid gives a negative index
    assert!(!grid_coords_to_int_grid_index_fits(&GridCoords { x: 0, y: 3 }, 3, 3));
    // the area overflows u32
    assert!(!grid_coords_to_int_grid_index_fits(&GridCoords { x: 0, y: 0 }, 1 << 16, 1 << 16));
}

#[test]
fn successors_avoid_collisions_in_order() {
    let mut collisions = HashSet::new();
    collisions.insert(1);
    assert_eq!(grid_successors(4, 3, 3, &collisions), vec![(3, 1), (5, 1), (7, 1)]);
    assert_eq!(grid_successors(4, 3, 3, &HashSet::new()), vec![(1, 1), (3, 1), (5, 1), (7, 1)]);
    assert_eq!(grid_heuristic(0, 8, 3), 12);
    assert!(reached_goal(5, 5));
    assert!(!reached_goal(5, 6));
}

#[test]
fn pathfind_to_itself() {
    let mut collisions = HashSet::new();
    collisions.insert(4);
    // even a start on a collision cell, or an empty grid, is its own path
    assert_eq!(pathfind(&4, &4, &collisions, &3, &3), Some((vec![4], 0)));
    assert_eq!(pathfind(&2, &2, &collisions, &0, &0), Some((vec![2], 0)));
}

#[test]
fn pathfind_paths_are_walks() {
    let mut collisions = HashSet::new();
    collisions.insert(6);
    collisions.insert(7);
    collisions.insert(9);
    let (w, h) = (4u32, 4u32);
    let (path, _) = pathfind(&0, &15, &collisions, &w, &h).expect("a path exists");
    assert_eq!(path[0], 0);
    assert_eq!(*path.last().unwrap(), 15);
    for pair in path.windows(2) {
        assert_eq!(int_cell_distance(pair[0], pair[1], 4), 1);
        assert!(!collisions.contains(&pair[1]));
    }
    let distinct: HashSet<usize> = path.iter().copied().collect();
    assert_eq!(distinct.len(), path.len());
}

#[test]
fn pathfind_fit_checks() {
    assert!(pathfind_fits(0, 8, 3, 3));
    assert!(pathfind_fits(5, 5, 0, 0));
    assert!(!pathfind_fits(0, 8, 0, 3));
    assert!(!pathfind_fits(0, 8, 3, 0));
}

#[test]
fn empty_grid_has_no_index_whatever_the_row() {
    let far = GridCoords { x: 0, y: i32::MIN };
    assert!(grid_coords_to_int_grid_index_fits(&far, 0, 5));
    assert_eq!(grid_coords_to_int_grid_index(&far, 0, 5), None);
}

#[test]
fn flipping_a_row_that_overflows_midway_is_refused() {
    // 1 - (-2147483647) overflows i32 before the final - 1 brings it back
    let low = GridCoords { x: 0, y: -2147483647 };
    assert!(!grid_coords_to_int_grid_index_fits(&low, 1, 1));
    // a row below the grid that flips without overflow has no index
    let below = GridCoords { x: 0, y: -3 };
    assert!(grid_coords_to_int_grid_index_fits(&below, 1, 1));
    assert_eq!(grid_coords_to_int_grid_index(&below, 1, 1), None);
}

#[test]
fn index_to_grid_coords_through_the_library() {
    assert_eq!(int_grid_index_to_grid_coords(0, 3, 3), Some(GridCoords { x: 0, y: 2 }));
    assert_eq!(int_grid_index_to_grid_coords(7, 3, 3), Some(GridCoords { x: 1, y: 0 }));
    assert_eq!(int_grid_index_to_grid_coords(9, 3, 3), None);
    assert_eq!(int_grid_index_to_grid_coords(0, 0, 3), None);
    for i in 0..12usize {
        let c = int_grid_index_to_grid_coords(i, 4, 3).unwrap();
        assert_eq!(grid_coords_to_int_grid_index(&c, 4, 3), Some(i));
    }
}

#[test]
fn distance_of_huge_equal_cells() {
    // rows above isize::MAX wrap in the conversion, but equal cells are still 0 apart
    assert_eq!(int_cell_distance(usize::MAX, usize::MAX, 1), 0);
}

#[test]
fn pathfind_cost_within_three_times_the_shortest() {
    let mut collisions = HashSet::new();
    collisions.insert(5);
    collisions.insert(6);
    collisions.insert(9);
    let (w, h) = (4u32, 4u32);
    // shortest walk from 0 to 15 avoiding 5, 6, 9 makes 6 moves
    let (path, cost) = pathfind(&0, &15, &collisions, &w, &h).expect("a path exists");
    assert!(path.len() - 1 <= cost);
    assert!(6 <= cost && cost <= 3 * 6);
}
