//! Game-logic core of a tile-based top-down game: a fog-of-war grid of
//! closed and open tiles that the player reveals by hovering and clicking,
//! together with the small decision rules of the surrounding game (attack
//! permissions, inventory selection, movement input).

pub mod grid;
pub mod tiles;
pub mod world;
pub mod decor;
pub mod entities;
pub mod mob;
pub mod player;
pub mod ui;
mod random;
