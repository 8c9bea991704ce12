//! The rules of a turn-based empire game on a hexagonal map: provinces,
//! armies, empires and their diplomacy, turns, and the computer players.
pub mod resources;
pub mod army;
pub mod province;
pub mod assoc;
pub mod empire;
pub mod battle;
pub mod turns;
pub mod actions;
pub mod grid;
pub mod ai;
pub mod laws;
pub mod panels;
pub mod army_panel;
pub mod picking;
