//! What a frame shows: the colour behind each tile and the actors that are
//! in view. Putting it on a screen is left to the caller.

use crate::actors::{Actor, ActorView, Actors};
use crate::config::{
    color_dark_ground, color_dark_wall, color_light_ground, color_light_wall, Color,
};
use crate::map::{GridView, TileGrid};
use crate::visibility::{TrackerView, VisibilityTracker};
use vstd::prelude::*;

verus! {

/// The colour behind a tile: dark out of view, light in view, and one hue
/// for walls and another for the ground.
pub open spec fn shade(visible: bool, wall: bool) -> Color {
    if visible {
        if wall {
            Color::rgb(130, 110, 50)
        } else {
            Color::rgb(200, 180, 50)
        }
    } else {
        if wall {
            Color::rgb(0, 0, 100)
        } else {
            Color::rgb(50, 50, 150)
        }
    }
}

pub fn tile_color(visible: bool, wall: bool) -> (c: Color)
    ensures
        c == shade(visible, wall),
{
    match (visible, wall) {
        // outside of field of view:
        (false, true) => color_dark_wall(),
        (false, false) => color_dark_ground(),
        // inside fov:
        (true, true) => color_light_wall(),
        (true, false) => color_light_ground(),
    }
}

/// An actor as it is put on the screen.
#[derive(Clone, Copy, Debug, PartialEq, Eq, Structural)]
pub struct Sprite {
    pub x: i32,
    pub y: i32,
    pub glyph: char,
    pub color: Color,
}

/// One frame: the actors to draw, in the order in which they are drawn, and
/// for each tile the colour to put behind it, addressed as
/// `backgrounds[x][y]`; a tile that was never seen gets none.
#[derive(Clone, Debug, PartialEq, Eq)]
pub struct Frame {
    pub sprites: Vec<Sprite>,
    pub backgrounds: Vec<Vec<Option<Color>>>,
}

/// Whether an actor is drawn: it stands on a cell of the grid that is in
/// view.
pub open spec fn shown(tracker: TrackerView, actor: ActorView) -> bool {
    tracker.in_bounds(actor.x, actor.y) && tracker.lit[actor.x][actor.y]
}

/// The actor as it is put on the screen.
pub open spec fn sprite_of(actor: ActorView) -> Sprite {
    Sprite { x: actor.x as i32, y: actor.y as i32, glyph: actor.glyph, color: actor.color }
}

/// The sprites of those of `actors` that are shown, in the order of the
/// list.
pub open spec fn sprites_of(tracker: TrackerView, actors: Seq<Actor>) -> Seq<Sprite>
    decreases actors.len(),
{
    if actors.len() == 0 {
        Seq::empty()
    } else if shown(tracker, actors.last()@) {
        sprites_of(tracker, actors.drop_last()).push(sprite_of(actors.last()@))
    } else {
        sprites_of(tracker, actors.drop_last())
    }
}

/// What is drawn of the player and the other actors: the player first.
pub open spec fn cast(tracker: TrackerView, player: ActorView, npcs: Seq<Actor>) -> Seq<Sprite> {
    if shown(tracker, player) {
        seq![sprite_of(player)] + sprites_of(tracker, npcs)
    } else {
        sprites_of(tracker, npcs)
    }
}

/// The colour behind the tile at `(x, y)`: only tiles that were seen once
/// are shown at all.
pub open spec fn background(map: GridView, tracker: TrackerView, x: int, y: int) -> Option<Color> {
    if map.tile(x, y).explored {
        Some(shade(tracker.lit[x][y], map.tile(x, y).block_sight))
    } else {
        None
    }
}

/// The sprite of an actor, if the actor is in view.
pub fn draw_actor(tracker: &VisibilityTracker, actor: &Actor) -> (sprite: Option<Sprite>)
    requires
        tracker@.wf(),
    ensures
        sprite == (if shown(tracker@, actor@) {
            Some(sprite_of(actor@))
        } else {
            None
        }),
{
    let x = actor.x();
    let y = actor.y();
    if 0 <= x && x < tracker.width() && 0 <= y && y < tracker.height() && tracker.is_visible(x, y) {
        Some(Sprite { x, y, glyph: actor.char(), color: actor.color() })
    } else {
        None
    }
}

/// Puts a frame together: the player and the other actors as far as they
/// are in view, and the colour behind every tile that was ever seen.
pub fn render_all(map: &TileGrid, tracker: &VisibilityTracker, actors: &Actors) -> (frame: Frame)
    requires
        map@.shaped(),
        tracker@.wf(),
        tracker@.width == map@.width,
        tracker@.height == map@.height,
    ensures
        frame.sprites@ == cast(tracker@, actors.player@, actors.npcs@),
        frame.backgrounds.len() == map@.width,
        forall|x: int|
            0 <= x < map@.width ==> (#[trigger] frame.backgrounds[x]).len() == map@.height,
        forall|x: int, y: int|
            map@.in_bounds(x, y) ==> #[trigger] frame.backgrounds[x][y] == background(
                map@,
                tracker@,
                x,
                y,
            ),
{
    // draw all objects in the list
    let mut sprites: Vec<Sprite> = Vec::new();
    if let Some(sprite) = draw_actor(tracker, &actors.player) {
        sprites.push(sprite);
    }
    let ghost first = sprites@;
    let mut k: usize = 0;
    assert(actors.npcs@.take(0) =~= Seq::<Actor>::empty());
    while k < actors.npcs.len()
        invariant
            k <= actors.npcs.len(),
            tracker@.wf(),
            sprites@ == first + sprites_of(tracker@, actors.npcs@.take(k as int)),
        decreases actors.npcs.len() - k,
    {
        proof {
            let next = actors.npcs@.take(k as int + 1);
            assert(next.drop_last() =~= actors.npcs@.take(k as int));
            assert(next.last() == actors.npcs@[k as int]);
        }
        if let Some(sprite) = draw_actor(tracker, &actors.npcs[k]) {
            sprites.push(sprite);
            assert(sprites@ =~= first + sprites_of(tracker@, actors.npcs@.take(k as int + 1)));
        }
        k += 1;
    }
    assert(actors.npcs@.take(k as int) =~= actors.npcs@);
    proof {
        if !shown(tracker@, actors.player@) {
            assert(first + sprites_of(tracker@, actors.npcs@) =~= sprites_of(
                tracker@,
                actors.npcs@,
            ));
        }
    }
    // go through all tiles, and set their background color
    let width = map.width();
    let height = map.height();
    let mut backgrounds: Vec<Vec<Option<Color>>> = Vec::new();
    let mut x: i32 = 0;
    while x < width
        invariant
            0 <= x <= width,
            width == map@.width,
            height == map@.height,
            map@.shaped(),
            tracker@.wf(),
            tracker@.width == map@.width,
            tracker@.height == map@.height,
            backgrounds.len() == x,
            forall|a: int| 0 <= a < x ==> (#[trigger] backgrounds[a]).len() == height,
            forall|a: int, b: int|
                0 <= a < x && 0 <= b < height ==> #[trigger] backgrounds[a][b] == background(
                    map@,
                    tracker@,
                    a,
                    b,
                ),
        decreases width - x,
    {
        let mut column: Vec<Option<Color>> = Vec::new();
        let mut y: i32 = 0;
        while y < height
            invariant
                0 <= x < width,
                0 <= y <= height,
                width == map@.width,
                height == map@.height,
                map@.shaped(),
                tracker@.wf(),
                tracker@.width == map@.width,
                tracker@.height == map@.height,
                column.len() == y,
                forall|b: int|
                    0 <= b < y ==> #[trigger] column[b] == background(map@, tracker@, x as int, b),
            decreases height - y,
        {
            let visible = tracker.is_visible(x, y);
            let wall = map.blocks_sight(x, y);
            // show explored tiles only
            if map.is_explored(x, y) {
                column.push(Some(tile_color(visible, wall)));
            } else {
                column.push(None);
            }
            y += 1;
        }
        backgrounds.push(column);
        x += 1;
    }
    Frame { sprites, backgrounds }
}

} // verus!
