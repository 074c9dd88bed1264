pub mod error;
pub mod game;
pub mod gamedata;
pub mod lists;
pub mod paint;
pub mod rng;
pub mod single;
pub mod table;
pub mod text;
