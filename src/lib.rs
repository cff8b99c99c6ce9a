pub mod game;
pub mod map;
pub mod snake;
