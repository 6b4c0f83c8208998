//! A small standalone arena: fighters with attributes, derived vitals and
//! progression, rooms with exits, and one-on-one unarmed combat rounds.

pub mod player_state;
pub mod combat;
pub mod npc;
pub mod room;
pub mod world;
