//! The game between two frames: what a key does, when the field of view has
//! to be computed again, and what is drawn. Reading keys and drawing are
//! left to the caller, who hands in what was read and is told what to do.

use crate::actors::{Actor, ActorView, Actors};
use crate::config::{FOV_ALGO, FOV_LIGHT_WALLS, TORCH_RADIUS};
use crate::dungeon::walled;
use crate::map::{GridView, TileGrid};
use crate::renderer::{background, cast, render_all, Frame};
use crate::visibility::{
    covers_grid, fov_inputs, lit_cells, FovCell, FovRequest, TrackerView, VisibilityTracker,
};
use vstd::prelude::*;

verus! {

/// The keys that the game tells apart.
#[derive(Clone, Copy, Debug, PartialEq, Eq, Structural)]
pub enum KeyCode {
    Escape,
    Enter,
    Up,
    Down,
    Left,
    Right,
    Other,
}

/// A key as it was pressed.
#[derive(Clone, Copy, Debug, PartialEq, Eq, Structural)]
pub struct Key {
    pub code: KeyCode,
    pub alt: bool,
}

/// What the caller has to do once a key was handled.
#[derive(Clone, Copy, Debug, PartialEq, Eq, Structural)]
pub enum Command {
    /// Leave the game.
    Exit,
    /// Switch between the window and the full screen.
    ToggleFullscreen,
    /// Go on with the next frame.
    Continue,
}

/// The step that a key asks the player to take, if it asks for one.
pub open spec fn heading(key: Key) -> Option<(int, int)> {
    match key.code {
        KeyCode::Up => Some((0, -1)),
        KeyCode::Down => Some((0, 1)),
        KeyCode::Left => Some((-1, 0)),
        KeyCode::Right => Some((1, 0)),
        _ => None,
    }
}

/// What the caller is told for a key: escape leaves the game, enter with
/// alt toggles the full screen, and everything else goes on.
pub open spec fn command_for(key: Key) -> Command {
    match key.code {
        KeyCode::Escape => Command::Exit,
        KeyCode::Enter => if key.alt {
            Command::ToggleFullscreen
        } else {
            Command::Continue
        },
        _ => Command::Continue,
    }
}

/// What a [`Game`] is made of.
pub struct GameView {
    pub map: GridView,
    pub player: ActorView,
    pub npcs: Seq<Actor>,
    pub tracker: TrackerView,
}

impl GameView {
    /// Whether a game can be played on `map` with the player at `player`:
    /// the rim of the map is wall and the player stands on a tile of the map
    /// that can be walked on. The player can then never step off the map.
    pub open spec fn playable(map: GridView, player: ActorView) -> bool {
        &&& map.shaped()
        &&& walled(map)
        &&& map.in_bounds(player.x, player.y)
        &&& !map.tile(player.x, player.y).impassable
    }

    pub open spec fn wf(self) -> bool {
        &&& GameView::playable(self.map, self.player)
        &&& self.tracker.wf()
        &&& self.tracker.width == self.map.width
        &&& self.tracker.height == self.map.height
    }

    /// The game after the player tried to step by `(dx, dy)`: the step is
    /// taken unless the tile to step on blocks movement.
    pub open spec fn stepped(self, dx: int, dy: int) -> GameView {
        if self.map.tile(self.player.x + dx, self.player.y + dy).impassable {
            self
        } else {
            GameView { player: self.player.at(self.player.x + dx, self.player.y + dy), ..self }
        }
    }

    /// The game after a key: only the four arrows change anything.
    pub open spec fn after_key(self, key: Key) -> GameView {
        match heading(key) {
            Some(step) => self.stepped(step.0, step.1),
            None => self,
        }
    }
}

/// The next tile in any of the four directions is a tile of the map.
pub proof fn lemma_step_stays_on_map(map: GridView, player: ActorView, dx: int, dy: int)
    requires
        GameView::playable(map, player),
        (dx == 0 && (dy == 1 || dy == -1)) || (dy == 0 && (dx == 1 || dx == -1)),
    ensures
        map.in_bounds(player.x + dx, player.y + dy),
{
    assert(!map.tile(player.x, player.y).is_wall());
}

pub struct Game {
    map: TileGrid,
    actors: Actors,
    tracker: VisibilityTracker,
}

impl View for Game {
    type V = GameView;

    closed spec fn view(&self) -> GameView {
        GameView {
            map: self.map@,
            player: self.actors.player@,
            npcs: self.actors.npcs@,
            tracker: self.tracker@,
        }
    }
}

impl Game {
    /// Whether a game can be started on `map` with `actors`.
    pub fn can_start(map: &TileGrid, actors: &Actors) -> (b: bool)
        requires
            map@.shaped(),
        ensures
            b == GameView::playable(map@, actors.player@),
    {
        let width = map.width();
        let height = map.height();
        let px = actors.player.x();
        let py = actors.player.y();
        if !map.in_bounds(px, py) {
            return false;
        }
        if !map.is_passable(px, py) {
            return false;
        }
        let mut x: i32 = 0;
        while x < width
            invariant
                0 <= x <= width,
                0 < height,
                width == map@.width,
                height == map@.height,
                map@.shaped(),
                forall|a: int, b: int|
                    0 <= a < x && (b == 0 || b == height - 1) ==> (#[trigger] map@.tile(
                        a,
                        b,
                    )).is_wall(),
            decreases width - x,
        {
            if map.is_passable(x, 0) || !map.blocks_sight(x, 0) || map.is_passable(x, height - 1)
                || !map.blocks_sight(x, height - 1) {
                proof {
                    assert(!map@.tile(x as int, 0).is_wall() || !map@.tile(
                        x as int,
                        height - 1,
                    ).is_wall());
                }
                return false;
            }
            x += 1;
        }
        let mut y: i32 = 0;
        while y < height
            invariant
                0 <= y <= height,
                0 < width,
                width == map@.width,
                height == map@.height,
                map@.shaped(),
                forall|a: int, b: int|
                    0 <= a < width && (b == 0 || b == height - 1) ==> (#[trigger] map@.tile(
                        a,
                        b,
                    )).is_wall(),
                forall|a: int, b: int|
                    0 <= b < y && (a == 0 || a == width - 1) ==> (#[trigger] map@.tile(
                        a,
                        b,
                    )).is_wall(),
            decreases height - y,
        {
            if map.is_passable(0, y) || !map.blocks_sight(0, y) || map.is_passable(width - 1, y)
                || !map.blocks_sight(width - 1, y) {
                proof {
                    assert(!map@.tile(0, y as int).is_wall() || !map@.tile(
                        width - 1,
                        y as int,
                    ).is_wall());
                }
                return false;
            }
            y += 1;
        }
        true
    }

    /// A game on `map` with `actors`; nothing is in view yet.
    pub fn new(map: TileGrid, actors: Actors) -> (game: Self)
        requires
            GameView::playable(map@, actors.player@),
        ensures
            game@ == (GameView {
                map: map@,
                player: actors.player@,
                npcs: actors.npcs@,
                tracker: TrackerView::dark(map@.width, map@.height),
            }),
            game@.wf(),
    {
        let tracker = VisibilityTracker::init(&map);
        Game { map, actors, tracker }
    }

    pub fn map(&self) -> (map: &TileGrid)
        ensures
            map@ == self@.map,
    {
        &self.map
    }

    pub fn actors(&self) -> (actors: &Actors)
        ensures
            actors.player@ == self@.player,
            actors.npcs@ == self@.npcs,
    {
        &self.actors
    }

    pub fn tracker(&self) -> (tracker: &VisibilityTracker)
        ensures
            tracker@ == self@.tracker,
    {
        &self.tracker
    }

    /// What the field-of-view engine is fed before the first frame.
    pub fn fov_inputs(&self) -> (cells: Vec<Vec<FovCell>>)
        requires
            self@.wf(),
        ensures
            cells.len() == self@.map.width,
            forall|x: int|
                0 <= x < self@.map.width ==> (#[trigger] cells[x]).len() == self@.map.height,
            forall|x: int, y: int|
                self@.map.in_bounds(x, y) ==> #[trigger] cells[x][y] == self@.map.fov_cell(x, y),
    {
        fov_inputs(&self.map)
    }

    /// The question to put to the field-of-view engine before the frame is
    /// drawn, if the player has moved since it was last asked.
    pub fn fov_request(&self) -> (request: Option<FovRequest>)
        ensures
            request == (if self@.tracker.stale(self@.player.x as i32, self@.player.y as i32) {
                Some(
                    FovRequest {
                        x: self@.player.x as i32,
                        y: self@.player.y as i32,
                        radius: TORCH_RADIUS,
                        light_walls: FOV_LIGHT_WALLS,
                        algorithm: FOV_ALGO,
                    },
                )
            } else {
                None
            }),
    {
        self.tracker.request(self.actors.player.x(), self.actors.player.y())
    }

    /// Takes in what the engine answered for the place of the player.
    pub fn recompute(&mut self, visible: Vec<Vec<bool>>)
        requires
            old(self)@.wf(),
            covers_grid(lit_cells(visible@), old(self)@.map.width, old(self)@.map.height),
        ensures
            final(self)@ == (GameView {
                map: old(self)@.map.unveil(lit_cells(visible@)),
                tracker: TrackerView {
                    lit: lit_cells(visible@),
                    viewpoint: Some((old(self)@.player.x as i32, old(self)@.player.y as i32)),
                    ..old(self)@.tracker
                },
                ..old(self)@
            }),
            final(self)@.wf(),
            !final(self)@.tracker.stale(old(self)@.player.x as i32, old(self)@.player.y as i32),
            old(self)@.map.explored_within(final(self)@.map),
            old(self)@.map.wf() ==> final(self)@.map.wf(),
    {
        let x = self.actors.player.x();
        let y = self.actors.player.y();
        let ghost before = self.map@;
        self.tracker.recompute(&mut self.map, x, y, visible);
        proof {
            assert forall|a: int, b: int|
                self.map@.in_bounds(a, b) && (a == 0 || b == 0 || a == self.map@.width - 1 || b
                    == self.map@.height - 1) implies (#[trigger] self.map@.tile(a, b)).is_wall() by {
                assert(before.tile(a, b).is_wall());
            }
        }
    }

    /// What the next frame shows.
    pub fn render_all(&self) -> (frame: Frame)
        requires
            self@.wf(),
        ensures
            frame.sprites@ == cast(self@.tracker, self@.player, self@.npcs),
            frame.backgrounds.len() == self@.map.width,
            forall|x: int|
                0 <= x < self@.map.width ==> (#[trigger] frame.backgrounds[x]).len()
                    == self@.map.height,
            forall|x: int, y: int|
                self@.map.in_bounds(x, y) ==> #[trigger] frame.backgrounds[x][y] == background(
                    self@.map,
                    self@.tracker,
                    x,
                    y,
                ),
    {
        render_all(&self.map, &self.tracker, &self.actors)
    }

    /// Handles one key and tells the caller what to do next.
    pub fn handle_keys(&mut self, key: Key) -> (command: Command)
        requires
            old(self)@.wf(),
        ensures
            command == command_for(key),
            final(self)@ == old(self)@.after_key(key),
            final(self)@.wf(),
    {
        match key.code {
            // exit game
            KeyCode::Escape => Command::Exit,
            KeyCode::Enter => {
                if key.alt {
                    // Alt+Enter: toggle fullscreen
                    Command::ToggleFullscreen
                } else {
                    Command::Continue
                }
            },
            // movement keys
            KeyCode::Up => {
                self.step(0, -1);
                Command::Continue
            },
            KeyCode::Down => {
                self.step(0, 1);
                Command::Continue
            },
            KeyCode::Left => {
                self.step(-1, 0);
                Command::Continue
            },
            KeyCode::Right => {
                self.step(1, 0);
                Command::Continue
            },
            KeyCode::Other => Command::Continue,
        }
    }

    /// Lets the player try one step.
    fn step(&mut self, dx: i32, dy: i32)
        requires
            old(self)@.wf(),
            (dx == 0 && (dy == 1 || dy == -1)) || (dy == 0 && (dx == 1 || dx == -1)),
        ensures
            final(self)@ == old(self)@.stepped(dx as int, dy as int),
            final(self)@.wf(),
    {
        proof {
            lemma_step_stays_on_map(self@.map, self@.player, dx as int, dy as int);
        }
        self.actors.player.move_by(dx, dy, &self.map);
    }
}

} // verus!
