//! Core engine of a turn-based tactical battle game on a hexagonal grid.
//!
//! The crate covers the battle rules only: hex-coordinate math, the battle
//! field with its tile occupancy, the character and attribute model, ability
//! resolution with damage math, the turn/lifecycle state machine, the enemy
//! decision policy, and power-up application. Rendering and input belong to
//! whatever shell embeds this library.

pub mod ability;
pub mod battle_field;
pub mod catalog;
pub mod character;
pub mod enemy;
pub mod hex;
pub mod init;
pub mod interactions;
pub mod lifecycle;
pub mod log;
pub mod power_up;
pub mod resolution;
pub mod rng;
pub mod text;
