//! The world: players, NPCs, rooms and the state that changes as they act.

pub mod world_player;

pub mod loader;
pub mod world;
pub mod world_state;
pub mod world_config;
pub mod world_item;
pub mod item_registry;
pub mod map_config;
pub mod world_skill;
pub mod npc;
pub mod room;
pub mod world_zone;
pub mod event;
pub mod world_text;
pub mod combat;
pub mod world_loader;
