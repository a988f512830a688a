pub mod basic_dungeon;
pub mod generator;
