use roguelike::actors::{Actor, Actors};
use roguelike::config::{
    color_dark_ground, color_dark_wall, color_light_ground, color_light_wall, Color, FovAlgorithm,
    FOV_ALGO, FOV_LIGHT_WALLS, LIMIT_FPS, TORCH_RADIUS,
};
use roguelike::dungeon::Attempt;
use roguelike::game::{Command, Game, Key, KeyCode};
use roguelike::map::TileGrid;
use roguelike::rect::Rect;
use roguelike::renderer::{draw_actor, render_all, tile_color, Sprite};
use roguelike::visibility::VisibilityTracker;

fn white() -> Color {
    Color { r: 255, g: 255, b: 255 }
}

fn yellow() -> Color {
    Color { r: 255, g: 255, b: 0 }
}

/// One room from (1, 1) to (6, 6) on a 10 by 8 grid; the player in its
/// center at (3, 3), one other actor left at (0, 0).
fn start() -> Game {
    let mut npcs = vec![Actor::new(0, 0, '@', white()), Actor::new(0, 0, 'o', yellow())];
    let map = TileGrid::generate_from(
        10,
        8,
        &vec![Attempt { room: Rect::new(1, 1, 5, 5), horizontal_first: true }],
        &mut npcs,
    );
    let actors = Actors { player: npcs[0], npcs: vec![npcs[1]] };
    assert!(Game::can_start(&map, &actors));
    Game::new(map, actors)
}

fn key(code: KeyCode) -> Key {
    Key { code, alt: false }
}

fn player(game: &Game) -> (i32, i32) {
    (game.actors().player.x(), game.actors().player.y())
}

#[test]
fn constants_of_the_view() {
    assert_eq!(LIMIT_FPS, 20);
    assert_eq!(TORCH_RADIUS, 10);
    assert!(FOV_LIGHT_WALLS);
    assert_eq!(FOV_ALGO, FovAlgorithm::Basic);
}

#[test]
fn tile_colors_are_the_four_of_the_palette() {
    assert_eq!(tile_color(false, true), Color { r: 0, g: 0, b: 100 });
    assert_eq!(tile_color(false, false), Color { r: 50, g: 50, b: 150 });
    assert_eq!(tile_color(true, true), Color { r: 130, g: 110, b: 50 });
    assert_eq!(tile_color(true, false), Color { r: 200, g: 180, b: 50 });
    assert_eq!(tile_color(false, true), color_dark_wall());
    assert_eq!(tile_color(false, false), color_dark_ground());
    assert_eq!(tile_color(true, true), color_light_wall());
    assert_eq!(tile_color(true, false), color_light_ground());
}

#[test]
fn a_game_cannot_start_with_the_player_in_a_wall() {
    let mut npcs = Vec::new();
    let map = TileGrid::generate_from(
        10,
        8,
        &vec![Attempt { room: Rect::new(1, 1, 5, 5), horizontal_first: true }],
        &mut npcs,
    );
    let in_wall = Actors { player: Actor::new(0, 0, '@', white()), npcs: Vec::new() };
    assert!(!Game::can_start(&map, &in_wall));
    let off_map = Actors { player: Actor::new(10, 3, '@', white()), npcs: Vec::new() };
    assert!(!Game::can_start(&map, &off_map));
    let on_floor = Actors { player: Actor::new(2, 5, '@', white()), npcs: Vec::new() };
    assert!(Game::can_start(&map, &on_floor));
}

#[test]
fn a_game_cannot_start_on_a_map_with_an_open_rim() {
    let mut map = TileGrid::walls(10, 8);
    map.create_room(Rect::new(1, 1, 5, 5));
    let actors = Actors { player: Actor::new(3, 3, '@', white()), npcs: Vec::new() };
    assert!(Game::can_start(&map, &actors));
    let mut open = map.clone();
    open.create_h_tunnel(6, 9, 3);
    assert!(!Game::can_start(&open, &actors));
    let mut open = map.clone();
    open.create_v_tunnel(0, 2, 4);
    assert!(!Game::can_start(&open, &actors));
}

#[test]
fn escape_leaves_the_game() {
    let mut game = start();
    assert_eq!(game.handle_keys(key(KeyCode::Escape)), Command::Exit);
    assert_eq!(game.handle_keys(Key { code: KeyCode::Escape, alt: true }), Command::Exit);
    assert_eq!(player(&game), (3, 3));
}

#[test]
fn enter_toggles_the_full_screen_only_with_alt() {
    let mut game = start();
    assert_eq!(game.handle_keys(Key { code: KeyCode::Enter, alt: true }), Command::ToggleFullscreen);
    assert_eq!(game.handle_keys(key(KeyCode::Enter)), Command::Continue);
    assert_eq!(player(&game), (3, 3));
}

#[test]
fn arrows_move_the_player() {
    let mut game = start();
    assert_eq!(game.handle_keys(key(KeyCode::Up)), Command::Continue);
    assert_eq!(player(&game), (3, 2));
    assert_eq!(game.handle_keys(key(KeyCode::Left)), Command::Continue);
    assert_eq!(player(&game), (2, 2));
    assert_eq!(game.handle_keys(key(KeyCode::Down)), Command::Continue);
    assert_eq!(player(&game), (2, 3));
    assert_eq!(game.handle_keys(Key { code: KeyCode::Right, alt: true }), Command::Continue);
    assert_eq!(player(&game), (3, 3));
}

#[test]
fn walls_stop_the_player() {
    let mut game = start();
    // the floor runs from 2 to 5 on both axes
    for _ in 0..6 {
        assert_eq!(game.handle_keys(key(KeyCode::Up)), Command::Continue);
    }
    assert_eq!(player(&game), (3, 2));
    for _ in 0..6 {
        game.handle_keys(key(KeyCode::Right));
    }
    assert_eq!(player(&game), (5, 2));
    for _ in 0..6 {
        game.handle_keys(key(KeyCode::Down));
    }
    assert_eq!(player(&game), (5, 5));
    for _ in 0..6 {
        game.handle_keys(key(KeyCode::Left));
    }
    assert_eq!(player(&game), (2, 5));
}

#[test]
fn other_keys_do_nothing() {
    let mut game = start();
    assert_eq!(game.handle_keys(key(KeyCode::Other)), Command::Continue);
    assert_eq!(game.handle_keys(Key { code: KeyCode::Other, alt: true }), Command::Continue);
    assert_eq!(player(&game), (3, 3));
}

#[test]
fn the_engine_is_asked_only_when_the_player_has_moved() {
    let mut game = start();
    let request = game.fov_request().unwrap();
    assert_eq!((request.x, request.y), (3, 3));
    assert_eq!((request.radius, request.light_walls, request.algorithm), (10, true, FovAlgorithm::Basic));
    game.recompute(vec![vec![false; 8]; 10]);
    assert!(game.fov_request().is_none());
    // a key that does not move the player asks for nothing new
    game.handle_keys(key(KeyCode::Other));
    assert!(game.fov_request().is_none());
    game.handle_keys(key(KeyCode::Up));
    let request = game.fov_request().unwrap();
    assert_eq!((request.x, request.y), (3, 2));
    game.recompute(vec![vec![false; 8]; 10]);
    assert!(game.fov_request().is_none());
    // a step into a wall leaves the player in place
    game.handle_keys(key(KeyCode::Up));
    assert!(game.fov_request().is_none());
}

#[test]
fn the_engine_is_fed_the_map_of_the_game() {
    let game = start();
    let cells = game.fov_inputs();
    assert_eq!(cells.len(), 10);
    for x in 0..10 {
        assert_eq!(cells[x].len(), 8);
        for y in 0..8 {
            let floor = 2 <= x && x <= 5 && 2 <= y && y <= 5;
            assert_eq!(cells[x][y].transparent, floor);
            assert_eq!(cells[x][y].walkable, floor);
        }
    }
}

#[test]
fn nothing_is_drawn_before_anything_was_seen() {
    let game = start();
    let frame = game.render_all();
    assert!(frame.sprites.is_empty());
    assert_eq!(frame.backgrounds.len(), 10);
    for column in frame.backgrounds.iter() {
        assert_eq!(column.len(), 8);
        for cell in column.iter() {
            assert_eq!(*cell, None);
        }
    }
}

#[test]
fn a_frame_shows_what_is_lit_and_remembers_what_was() {
    let mut game = start();
    let mut lit = vec![vec![false; 8]; 10];
    for x in 1..=4 {
        for y in 1..=6 {
            lit[x][y] = true;
        }
    }
    game.recompute(lit);
    let frame = game.render_all();
    assert_eq!(frame.sprites, vec![Sprite { x: 3, y: 3, glyph: '@', color: white() }]);
    assert_eq!(frame.backgrounds[1][1], Some(Color { r: 130, g: 110, b: 50 }));
    assert_eq!(frame.backgrounds[2][2], Some(Color { r: 200, g: 180, b: 50 }));
    assert_eq!(frame.backgrounds[5][5], None);
    assert_eq!(frame.backgrounds[0][0], None);
    // the light moves on: what was lit is remembered in the dark colours
    let mut lit = vec![vec![false; 8]; 10];
    lit[5][5] = true;
    lit[0][0] = true;
    game.recompute(lit);
    let frame = game.render_all();
    assert_eq!(frame.backgrounds[1][1], Some(Color { r: 0, g: 0, b: 100 }));
    assert_eq!(frame.backgrounds[2][2], Some(Color { r: 50, g: 50, b: 150 }));
    assert_eq!(frame.backgrounds[5][5], Some(Color { r: 200, g: 180, b: 50 }));
    assert_eq!(frame.backgrounds[0][0], Some(Color { r: 130, g: 110, b: 50 }));
    assert_eq!(frame.backgrounds[9][7], None);
    // the player stands in the dark, the other actor in the light
    assert_eq!(frame.sprites, vec![Sprite { x: 0, y: 0, glyph: 'o', color: yellow() }]);
    assert!(game.map().is_explored(2, 2));
    assert!(game.tracker().is_visible(5, 5));
}

#[test]
fn the_player_is_drawn_before_the_others() {
    let mut game = start();
    game.recompute(vec![vec![true; 8]; 10]);
    let frame = game.render_all();
    assert_eq!(
        frame.sprites,
        vec![
            Sprite { x: 3, y: 3, glyph: '@', color: white() },
            Sprite { x: 0, y: 0, glyph: 'o', color: yellow() },
        ]
    );
}

#[test]
fn an_actor_off_the_map_is_not_drawn() {
    let mut grid = TileGrid::walls(4, 4);
    let mut tracker = VisibilityTracker::init(&grid);
    tracker.recompute(&mut grid, 1, 1, vec![vec![true; 4]; 4]);
    assert_eq!(draw_actor(&tracker, &Actor::new(4, 0, 'x', white())), None);
    assert_eq!(draw_actor(&tracker, &Actor::new(0, -1, 'x', white())), None);
    assert_eq!(
        draw_actor(&tracker, &Actor::new(3, 3, 'x', white())),
        Some(Sprite { x: 3, y: 3, glyph: 'x', color: white() })
    );
    let actors = Actors {
        player: Actor::new(-5, 2, '@', white()),
        npcs: vec![Actor::new(1, 2, 'a', yellow()), Actor::new(9, 9, 'b', yellow()), Actor::new(2, 1, 'c', white())],
    };
    let frame = render_all(&grid, &tracker, &actors);
    assert_eq!(
        frame.sprites,
        vec![
            Sprite { x: 1, y: 2, glyph: 'a', color: yellow() },
            Sprite { x: 2, y: 1, glyph: 'c', color: white() },
        ]
    );
}
