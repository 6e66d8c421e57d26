use roguelike::config::FovAlgorithm;
use roguelike::map::TileGrid;
use roguelike::rect::Rect;
use roguelike::visibility::{covers, fov_inputs, FovCell, FovRequest, VisibilityTracker};

/// A field of view for the tests: a cell is lit when it lies within the
/// radius and every cell on the straight line to it lets sight pass.
fn field_of_view(cells: &Vec<Vec<FovCell>>, ox: i32, oy: i32, radius: i32) -> Vec<Vec<bool>> {
    let width = cells.len() as i32;
    let height = if width > 0 { cells[0].len() as i32 } else { 0 };
    let mut lit = vec![vec![false; height as usize]; width as usize];
    for tx in 0..width {
        for ty in 0..height {
            let (dx, dy) = (tx - ox, ty - oy);
            if dx * dx + dy * dy > radius * radius {
                continue;
            }
            let steps = dx.abs().max(dy.abs());
            let mut clear = true;
            for s in 1..steps {
                let x = ox + (dx * s * 2 + steps * dx.signum()) / (2 * steps);
                let y = oy + (dy * s * 2 + steps * dy.signum()) / (2 * steps);
                if !cells[x as usize][y as usize].transparent {
                    clear = false;
                }
            }
            lit[tx as usize][ty as usize] = clear;
        }
    }
    lit
}

fn two_rooms() -> (TileGrid, Rect, Rect) {
    let mut grid = TileGrid::walls(30, 12);
    let near = Rect::new(1, 1, 8, 8);
    let far = Rect::new(15, 1, 8, 8);
    grid.create_room(near);
    grid.create_room(far);
    (grid, near, far)
}

fn explored(grid: &TileGrid) -> Vec<(i32, i32)> {
    let mut cells = Vec::new();
    for x in 0..grid.width() {
        for y in 0..grid.height() {
            if grid.is_explored(x, y) {
                cells.push((x, y));
            }
        }
    }
    cells
}

#[test]
fn the_engine_is_fed_what_the_tiles_say() {
    let (grid, near, _) = two_rooms();
    let cells = fov_inputs(&grid);
    assert_eq!(cells.len(), 30);
    for x in 0..30 {
        assert_eq!(cells[x as usize].len(), 12);
        for y in 0..12 {
            let floor = (near.x1 < x && x < near.x2 || 15 < x && x < 23) && 1 < y && y < 9;
            assert_eq!(cells[x as usize][y as usize], FovCell { transparent: floor, walkable: floor });
            assert_eq!(cells[x as usize][y as usize].transparent, !grid.blocks_sight(x, y));
            assert_eq!(cells[x as usize][y as usize].walkable, grid.is_passable(x, y));
        }
    }
}

#[test]
fn a_new_tracker_sees_nothing_and_is_stale() {
    let (grid, _, _) = two_rooms();
    let tracker = VisibilityTracker::init(&grid);
    assert_eq!((tracker.width(), tracker.height()), (30, 12));
    for x in 0..30 {
        for y in 0..12 {
            assert!(!tracker.is_visible(x, y));
        }
    }
    assert!(tracker.is_stale(0, 0));
    assert!(tracker.is_stale(5, 5));
    assert!(tracker.is_stale(-1, -1));
}

#[test]
fn a_stale_tracker_asks_with_the_standard_torch() {
    let (grid, _, _) = two_rooms();
    let tracker = VisibilityTracker::init(&grid);
    assert_eq!(
        tracker.request(5, 6),
        Some(FovRequest { x: 5, y: 6, radius: 10, light_walls: true, algorithm: FovAlgorithm::Basic })
    );
}

#[test]
fn a_tracker_is_fresh_until_the_viewpoint_moves() {
    let (mut grid, _, _) = two_rooms();
    let mut tracker = VisibilityTracker::init(&grid);
    let lit = field_of_view(&fov_inputs(&grid), 5, 5, 10);
    tracker.recompute(&mut grid, 5, 5, lit);
    assert!(!tracker.is_stale(5, 5));
    assert_eq!(tracker.request(5, 5), None);
    assert!(tracker.is_stale(6, 5));
    assert!(tracker.is_stale(5, 4));
    assert!(tracker.request(6, 5).is_some());
    let lit = field_of_view(&fov_inputs(&grid), 6, 5, 10);
    tracker.recompute(&mut grid, 6, 5, lit);
    assert!(!tracker.is_stale(6, 5));
    assert!(tracker.is_stale(5, 5));
}

#[test]
fn looking_from_the_center_of_a_room_explores_the_room_and_not_the_other() {
    let (mut grid, near, far) = two_rooms();
    let mut tracker = VisibilityTracker::init(&grid);
    let (cx, cy) = near.center();
    let lit = field_of_view(&fov_inputs(&grid), cx, cy, 10);
    tracker.recompute(&mut grid, cx, cy, lit);
    for x in near.x1 + 1..near.x2 {
        for y in near.y1 + 1..near.y2 {
            assert!(tracker.is_visible(x, y));
            assert!(grid.is_explored(x, y));
        }
    }
    for x in far.x1 + 1..far.x2 {
        for y in far.y1 + 1..far.y2 {
            assert!(!tracker.is_visible(x, y));
            assert!(!grid.is_explored(x, y));
        }
    }
}

#[test]
fn recompute_explores_exactly_what_is_lit() {
    let mut grid = TileGrid::walls(4, 3);
    grid.explore(0, 0);
    let mut tracker = VisibilityTracker::init(&grid);
    let mut lit = vec![vec![false; 3]; 4];
    lit[1][2] = true;
    lit[3][0] = true;
    tracker.recompute(&mut grid, 1, 1, lit.clone());
    assert_eq!(explored(&grid), vec![(0, 0), (1, 2), (3, 0)]);
    for x in 0..4 {
        for y in 0..3 {
            assert_eq!(tracker.is_visible(x, y), lit[x as usize][y as usize]);
            assert!(!grid.is_passable(x, y));
            assert!(grid.blocks_sight(x, y));
        }
    }
}

#[test]
fn what_was_explored_stays_explored() {
    let (mut grid, near, far) = two_rooms();
    let mut tracker = VisibilityTracker::init(&grid);
    let viewpoints = vec![near.center(), (2, 2), far.center(), (22, 8), near.center()];
    let mut before = explored(&grid);
    assert!(before.is_empty());
    for (x, y) in viewpoints {
        let lit = field_of_view(&fov_inputs(&grid), x, y, 4);
        tracker.recompute(&mut grid, x, y, lit);
        let after = explored(&grid);
        for cell in before.iter() {
            assert!(after.contains(cell));
        }
        assert!(after.len() >= before.len());
        before = after;
    }
    // out of view now, but remembered
    assert!(!tracker.is_visible(20, 5));
    assert!(grid.is_explored(20, 5));
}

#[test]
fn an_answer_that_lights_nothing_forgets_nothing() {
    let mut grid = TileGrid::walls(3, 3);
    let mut tracker = VisibilityTracker::init(&grid);
    tracker.recompute(&mut grid, 1, 1, vec![vec![true; 3]; 3]);
    assert_eq!(explored(&grid).len(), 9);
    tracker.recompute(&mut grid, 0, 0, vec![vec![false; 3]; 3]);
    assert_eq!(explored(&grid).len(), 9);
    assert!(!tracker.is_visible(1, 1));
}

#[test]
fn covers_tells_whether_an_answer_has_the_shape_of_the_grid() {
    assert!(covers(&vec![vec![false; 3]; 4], 4, 3));
    assert!(!covers(&vec![vec![false; 3]; 4], 3, 4));
    assert!(!covers(&vec![vec![false; 3]; 5], 4, 3));
    assert!(!covers(&vec![vec![false; 3], vec![false; 2]], 2, 3));
    assert!(covers(&Vec::new(), 0, 7));
}
