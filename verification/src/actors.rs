//! The player and everything else that stands somewhere on the map.

use crate::config::Color;
use crate::map::TileGrid;
use vstd::prelude::*;

verus! {

/// What an [`Actor`] is: where it stands and how it is drawn.
pub struct ActorView {
    pub x: int,
    pub y: int,
    pub glyph: char,
    pub color: Color,
}

impl ActorView {
    /// The same actor at another place.
    pub open spec fn at(self, x: int, y: int) -> ActorView {
        ActorView { x, y, ..self }
    }
}

/// This is a generic object: the player, a monster, an item, the stairs...
/// It's always represented by a character on screen.
#[derive(Copy, Clone, Debug, PartialEq, Eq)]
pub struct Actor {
    x: i32,
    y: i32,
    char: char,
    color: Color,
}

impl View for Actor {
    type V = ActorView;

    closed spec fn view(&self) -> ActorView {
        ActorView { x: self.x as int, y: self.y as int, glyph: self.char, color: self.color }
    }
}

/// An actor is what its view says: two actors with the same view are the
/// same actor.
pub proof fn lemma_view_injective(a: Actor, b: Actor)
    requires
        a@ == b@,
    ensures
        a == b,
{
}

pub struct Actors {
    pub player: Actor,
    pub npcs: Vec<Actor>,
}

impl Actor {
    pub fn new(x: i32, y: i32, char: char, color: Color) -> (actor: Self)
        ensures
            actor@ == (ActorView { x: x as int, y: y as int, glyph: char, color }),
    {
        Actor { x, y, char, color }
    }

    pub fn x(&self) -> (x: i32)
        ensures
            x == self@.x,
    {
        self.x
    }

    pub fn y(&self) -> (y: i32)
        ensures
            y == self@.y,
    {
        self.y
    }

    pub fn char(&self) -> (c: char)
        ensures
            c == self@.glyph,
    {
        self.char
    }

    pub fn color(&self) -> (c: Color)
        ensures
            c == self@.color,
    {
        self.color
    }

    pub fn set_coords(&mut self, x: i32, y: i32)
        ensures
            final(self)@ == old(self)@.at(x as int, y as int),
    {
        self.x = x;
        self.y = y;
    }

    /// Moves by the given amount, unless the tile to step on blocks
    /// movement: the actor stays where it is in that case.
    pub fn move_by(&mut self, dx: i32, dy: i32, map: &TileGrid)
        requires
            map@.shaped(),
            map@.in_bounds(old(self)@.x + dx, old(self)@.y + dy),
        ensures
            final(self)@ == (if map@.tile(old(self)@.x + dx, old(self)@.y + dy).impassable {
                old(self)@
            } else {
                old(self)@.at(old(self)@.x + dx, old(self)@.y + dy)
            }),
    {
        if map.is_passable(self.x + dx, self.y + dy) {
            self.x += dx;
            self.y += dy;
        }
    }
}

} // verus!
