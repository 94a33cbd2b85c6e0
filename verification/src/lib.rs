//! The rules of a networked spell-casting game.

pub mod closeness;
pub mod composing;
pub mod facing;
pub mod frames;
pub mod turning;
pub mod entity;
pub mod input;
pub mod lists;
pub mod magic;
pub mod measuring;
pub mod net;
pub mod observer;
pub mod physics;
pub mod player;
pub mod rounding;
pub mod scalar;
pub mod spatial;
pub mod spells;
pub mod stepping;
pub mod table;
pub mod text;
pub mod trace;
pub mod vector;
