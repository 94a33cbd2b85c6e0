//! Spells: what they are, how they are cast, and what they do.

pub mod aiming;
pub mod beams;
pub mod bodies;
pub mod bursts;
pub mod carrying;
pub mod casting;
pub mod catalog;
pub mod chaining;
pub mod charge_orb;
pub mod convex_lens;
pub mod damage;
pub mod data;
pub mod deliveries;
pub mod effects;
pub mod engine;
pub mod explosion;
pub mod freezing;
pub mod handheld_portal;
pub mod handlers;
pub mod hud;
pub mod ice;
pub mod iris;
pub mod lantern;
pub mod lens_hud;
pub mod lenses;
pub mod markers;
pub mod meeting;
pub mod passing;
pub mod portal;
pub mod portal_views;

pub mod registry;
pub mod striding;
pub mod triggers;
pub mod wounds;

pub use self::data::SpellId;
pub use self::registry::{ActiveSpell, SpellEntry, SpellRegistry, SwitchSpell};
