//! A fixed-point arena simulation: a ship, its lasers and a field of
//! asteroids that split, bounce and respawn, advanced one frame at a time.

pub mod geometry;
pub mod random;
pub mod asteroid;
pub mod physics;
pub mod ship;
pub mod laser;
pub mod particle;
pub mod game;
pub mod spawner;
pub mod collision;
pub mod tick;
pub mod session;
