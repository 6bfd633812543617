//! A simulation of autonomous robots exploring a shared, partially hidden
//! grid world. Each robot keeps an exclusively owned replica of the world,
//! reconciled against the single shared grid by a last-write-wins merge.

pub mod clock;
pub mod codec;
pub mod entropy;
pub mod grid;
pub mod map_game;
pub mod robot;
pub mod shared;
pub mod tile;
