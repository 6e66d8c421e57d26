use roguelike::actors::Actor;
use roguelike::config::Color;
use roguelike::map::TileGrid;
use roguelike::rect::Rect;

fn white() -> Color {
    Color { r: 255, g: 255, b: 255 }
}

fn room_grid() -> TileGrid {
    let mut grid = TileGrid::walls(10, 10);
    grid.create_room(Rect::new(1, 1, 5, 5));
    grid
}

#[test]
fn new_actor_reports_what_it_was_made_of() {
    let a = Actor::new(3, 4, '@', white());
    assert_eq!(a.x(), 3);
    assert_eq!(a.y(), 4);
    assert_eq!(a.char(), '@');
    assert_eq!(a.color(), white());
}

#[test]
fn set_coords_moves_and_keeps_the_rest() {
    let mut a = Actor::new(0, 0, 'o', Color { r: 1, g: 2, b: 3 });
    a.set_coords(7, 9);
    assert_eq!((a.x(), a.y()), (7, 9));
    assert_eq!(a.char(), 'o');
    assert_eq!(a.color(), Color { r: 1, g: 2, b: 3 });
}

#[test]
fn move_by_steps_onto_floor() {
    let grid = room_grid();
    let mut a = Actor::new(3, 3, '@', white());
    a.move_by(1, 0, &grid);
    assert_eq!((a.x(), a.y()), (4, 3));
    a.move_by(0, -1, &grid);
    assert_eq!((a.x(), a.y()), (4, 2));
    a.move_by(-2, 2, &grid);
    assert_eq!((a.x(), a.y()), (2, 4));
}

#[test]
fn move_by_is_stopped_by_a_wall() {
    let grid = room_grid();
    let mut a = Actor::new(2, 2, '@', white());
    a.move_by(-1, 0, &grid);
    assert_eq!((a.x(), a.y()), (2, 2));
    a.move_by(0, -1, &grid);
    assert_eq!((a.x(), a.y()), (2, 2));
    assert_eq!(a.char(), '@');
}
