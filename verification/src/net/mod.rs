//! What peers tell each other, and what the server makes of it.

pub mod address;
pub mod client;
pub mod crossing;
pub mod protocol;
pub mod replication;
pub mod seeing;
pub mod server;
pub mod server_bodies;
pub mod server_players;
pub mod server_portals;
pub mod walking;

pub use self::address::{parse_addr_args, DEFAULT_PORT, PROTOCOL_ID, TICK_HZ};
