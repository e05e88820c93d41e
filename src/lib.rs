//! Rules engine for an 8×8 board game that moves pieces like chess but settles
//! fights with health: pieces never capture by moving, they damage the enemy
//! pieces they attack at the end of each turn and leave the board when their
//! health runs out.

pub mod coords;
pub mod piece;
pub mod board;
pub mod coord_set;
pub mod behaviour;
pub mod combat;
pub mod opponent;
pub mod game;
pub mod laws;
