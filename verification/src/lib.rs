//! A text-adventure (MUD) game engine: command parsing, the player's
//! cultivation progress, quests, combat arithmetic and the shared world state.

pub mod styled;
pub mod chance;
pub mod command;
pub mod world_model;
pub mod combat;
pub mod npc;
pub mod world;
pub mod ui;
pub mod game;
pub mod arena;
pub mod gotify;
pub mod lifecycle;
pub mod combat_ticks;
pub mod laws;
pub mod commands;
pub mod quest_flow;
