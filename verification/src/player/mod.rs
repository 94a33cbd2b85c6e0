//! The player: what a character looks like, how it moves and how it is seen.

pub mod controller;
pub mod gaits;
pub mod moving;
pub mod parts;
pub mod recolor;
pub mod rig;
pub mod setup;
pub mod spells;
pub mod visuals;
