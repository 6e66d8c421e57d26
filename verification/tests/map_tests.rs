use roguelike::map::{Tile, TileGrid};
use roguelike::rect::Rect;

fn is_floor(grid: &TileGrid, x: i32, y: i32) -> bool {
    grid.is_passable(x, y) && !grid.blocks_sight(x, y)
}

fn is_wall(grid: &TileGrid, x: i32, y: i32) -> bool {
    !grid.is_passable(x, y) && grid.blocks_sight(x, y)
}

fn floor_cells(grid: &TileGrid) -> Vec<(i32, i32)> {
    let mut cells = Vec::new();
    for x in 0..grid.width() {
        for y in 0..grid.height() {
            if is_floor(grid, x, y) {
                cells.push((x, y));
            } else {
                assert!(is_wall(grid, x, y));
            }
        }
    }
    cells
}

#[test]
fn empty_tile_blocks_nothing() {
    let t = Tile::empty();
    assert!(!t.impassable);
    assert!(!t.block_sight);
    assert!(!t.explored);
}

#[test]
fn wall_tile_blocks_movement_and_sight() {
    let t = Tile::wall();
    assert!(t.impassable);
    assert!(t.block_sight);
    assert!(!t.explored);
}

#[test]
fn a_fresh_grid_is_all_unexplored_wall() {
    let grid = TileGrid::walls(7, 4);
    assert_eq!((grid.width(), grid.height()), (7, 4));
    for x in 0..7 {
        for y in 0..4 {
            assert!(is_wall(&grid, x, y));
            assert!(!grid.is_explored(x, y));
        }
    }
    assert!(grid.rooms().is_empty());
    assert!(grid.corridors().is_empty());
}

#[test]
fn a_grid_without_cells_can_be_made() {
    let grid = TileGrid::walls(0, 0);
    assert_eq!((grid.width(), grid.height()), (0, 0));
    assert!(!grid.in_bounds(0, 0));
}

#[test]
fn in_bounds_knows_the_edges() {
    let grid = TileGrid::walls(5, 3);
    assert!(grid.in_bounds(0, 0));
    assert!(grid.in_bounds(4, 2));
    assert!(!grid.in_bounds(5, 0));
    assert!(!grid.in_bounds(0, 3));
    assert!(!grid.in_bounds(-1, 0));
    assert!(!grid.in_bounds(0, -1));
}

#[test]
fn create_room_paints_the_interior_and_leaves_the_perimeter() {
    let mut grid = TileGrid::walls(10, 10);
    grid.create_room(Rect::new(2, 3, 4, 3));
    // the rectangle runs from (2, 3) to (6, 6); strictly inside lie x in 3..=5, y in 4..=5
    let expected = vec![(3, 4), (3, 5), (4, 4), (4, 5), (5, 4), (5, 5)];
    assert_eq!(floor_cells(&grid), expected);
}

#[test]
fn create_room_with_no_interior_changes_nothing() {
    let mut grid = TileGrid::walls(6, 6);
    grid.create_room(Rect::new(1, 1, 1, 4));
    grid.create_room(Rect::new(1, 1, 4, 1));
    grid.create_room(Rect::new(3, 3, 0, 0));
    assert_eq!(grid, TileGrid::walls(6, 6));
}

#[test]
fn create_room_does_not_put_the_room_on_the_list() {
    let mut grid = TileGrid::walls(10, 10);
    grid.create_room(Rect::new(1, 1, 4, 4));
    assert!(grid.rooms().is_empty());
}

#[test]
fn horizontal_tunnel_covers_both_ends_in_either_order() {
    let mut forth = TileGrid::walls(10, 5);
    forth.create_h_tunnel(2, 6, 3);
    let mut back = TileGrid::walls(10, 5);
    back.create_h_tunnel(6, 2, 3);
    let expected = vec![(2, 3), (3, 3), (4, 3), (5, 3), (6, 3)];
    assert_eq!(floor_cells(&forth), expected);
    assert_eq!(forth, back);
}

#[test]
fn vertical_tunnel_covers_both_ends_in_either_order() {
    let mut forth = TileGrid::walls(5, 10);
    forth.create_v_tunnel(1, 4, 2);
    let mut back = TileGrid::walls(5, 10);
    back.create_v_tunnel(4, 1, 2);
    let expected = vec![(2, 1), (2, 2), (2, 3), (2, 4)];
    assert_eq!(floor_cells(&forth), expected);
    assert_eq!(forth, back);
}

#[test]
fn a_tunnel_of_one_cell_is_cut() {
    let mut grid = TileGrid::walls(4, 4);
    grid.create_h_tunnel(2, 2, 1);
    assert_eq!(floor_cells(&grid), vec![(2, 1)]);
}

#[test]
fn explore_marks_one_tile_and_nothing_else() {
    let mut grid = TileGrid::walls(4, 4);
    assert!(!grid.is_explored(1, 2));
    grid.explore(1, 2);
    for x in 0..4 {
        for y in 0..4 {
            assert_eq!(grid.is_explored(x, y), (x, y) == (1, 2));
            assert!(is_wall(&grid, x, y));
        }
    }
}

#[test]
fn exploring_twice_is_exploring_once() {
    let mut once = TileGrid::walls(4, 4);
    once.explore(3, 0);
    let mut twice = TileGrid::walls(4, 4);
    twice.explore(3, 0);
    twice.explore(3, 0);
    assert!(twice.is_explored(3, 0));
    assert_eq!(once, twice);
}

#[test]
fn carving_keeps_what_was_explored() {
    let mut grid = TileGrid::walls(8, 8);
    grid.explore(3, 3);
    grid.explore(0, 0);
    grid.create_room(Rect::new(1, 1, 5, 5));
    grid.create_h_tunnel(0, 7, 3);
    grid.create_v_tunnel(0, 7, 3);
    assert!(grid.is_explored(3, 3));
    assert!(grid.is_explored(0, 0));
    assert!(is_floor(&grid, 3, 3));
    assert!(!grid.is_explored(2, 2));
}
