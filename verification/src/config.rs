//! The numbers that shape a dungeon and the way it is lit and drawn.

use crate::rect::Rect;
use vstd::prelude::*;

verus! {

// size of the map
pub const MAP_WIDTH: i32 = 80;

pub const MAP_HEIGHT: i32 = 45;

// 20 frames-per-second maximum
pub const LIMIT_FPS: i32 = 20;

// parameters of the room placement
pub const ROOM_MAX_SIZE: i32 = 10;

pub const ROOM_MIN_SIZE: i32 = 6;

pub const MAX_ROOMS: i32 = 30;

/// The ways in which a field of view can be computed.
#[derive(Clone, Copy, Debug, PartialEq, Eq, Structural)]
pub enum FovAlgorithm {
    Basic,
    Diamond,
    Shadow,
    Permissive0,
    Permissive1,
    Permissive2,
    Permissive3,
    Permissive4,
    Permissive5,
    Permissive6,
    Permissive7,
    Permissive8,
    Restrictive,
}

// field of view
pub const FOV_ALGO: FovAlgorithm = FovAlgorithm::Basic;

// light walls or not
pub const FOV_LIGHT_WALLS: bool = true;

pub const TORCH_RADIUS: i32 = 10;

/// A colour, by its red, green and blue parts.
#[derive(Clone, Copy, Debug, PartialEq, Eq, Structural)]
pub struct Color {
    pub r: u8,
    pub g: u8,
    pub b: u8,
}

impl Color {
    pub open spec fn rgb(r: u8, g: u8, b: u8) -> Color {
        Color { r, g, b }
    }
}

/// The colour of a wall that is remembered but out of view.
pub fn color_dark_wall() -> (c: Color)
    ensures
        c == Color::rgb(0, 0, 100),
{
    Color { r: 0, g: 0, b: 100 }
}

/// The colour of floor that is remembered but out of view.
pub fn color_dark_ground() -> (c: Color)
    ensures
        c == Color::rgb(50, 50, 150),
{
    Color { r: 50, g: 50, b: 150 }
}

/// The colour of a wall in view.
pub fn color_light_wall() -> (c: Color)
    ensures
        c == Color::rgb(130, 110, 50),
{
    Color { r: 130, g: 110, b: 50 }
}

/// The colour of floor in view.
pub fn color_light_ground() -> (c: Color)
    ensures
        c == Color::rgb(200, 180, 50),
{
    Color { r: 200, g: 180, b: 50 }
}

/// The size of a dungeon, the sides a room may have and the number of
/// placement attempts that are made.
#[derive(Clone, Copy, Debug, PartialEq, Eq, Structural)]
pub struct Config {
    pub map_width: i32,
    pub map_height: i32,
    pub room_min_size: i32,
    pub room_max_size: i32,
    pub max_rooms: i32,
}

impl Config {
    /// The sides of a room are positive, in order, and leave a room place on
    /// the map; the number of attempts is not negative.
    pub open spec fn valid(self) -> bool {
        &&& 1 <= self.room_min_size <= self.room_max_size
        &&& self.room_max_size < self.map_width
        &&& self.room_max_size < self.map_height
        &&& 0 <= self.max_rooms
    }

    /// Whether `room` can be drawn as a candidate: its sides are within the
    /// limits and it lies on the map.
    pub open spec fn admits(self, room: Rect) -> bool {
        &&& self.room_min_size <= room.x2 - room.x1 <= self.room_max_size
        &&& self.room_min_size <= room.y2 - room.y1 <= self.room_max_size
        &&& 0 <= room.x1
        &&& room.x2 < self.map_width
        &&& 0 <= room.y1
        &&& room.y2 < self.map_height
    }

    /// The configuration that the constants of this module describe.
    pub open spec fn standard_spec() -> Config {
        Config {
            map_width: MAP_WIDTH,
            map_height: MAP_HEIGHT,
            room_min_size: ROOM_MIN_SIZE,
            room_max_size: ROOM_MAX_SIZE,
            max_rooms: MAX_ROOMS,
        }
    }

    /// The configuration that the constants of this module describe.
    pub fn standard() -> (cfg: Config)
        ensures
            cfg == Config::standard_spec(),
            cfg.valid(),
    {
        Config {
            map_width: MAP_WIDTH,
            map_height: MAP_HEIGHT,
            room_min_size: ROOM_MIN_SIZE,
            room_max_size: ROOM_MAX_SIZE,
            max_rooms: MAX_ROOMS,
        }
    }

    pub fn is_valid(&self) -> (b: bool)
        ensures
            b == self.valid(),
    {
        1 <= self.room_min_size && self.room_min_size <= self.room_max_size && self.room_max_size
            < self.map_width && self.room_max_size < self.map_height && 0 <= self.max_rooms
    }
}

} // verus!
