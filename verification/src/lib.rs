pub mod actors;
pub mod config;
pub mod dungeon;
pub mod game;
pub mod generate;
pub mod map;
pub mod random;
pub mod rect;
pub mod renderer;
pub mod visibility;
