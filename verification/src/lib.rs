use vstd::prelude::*;

pub mod rect;
pub mod dice;
pub mod map;
pub mod components;
pub mod visibility_system;
pub mod player;
pub mod game;
pub mod enemy_ai_system;
pub mod laws;
pub mod spawn;
pub mod draw;
