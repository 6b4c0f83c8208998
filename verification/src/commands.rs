//! One handler per player command, each on the player and the world.

pub mod battle;
pub mod guard;
pub mod help;
pub mod interaction;
pub mod look;
pub mod movement;
pub mod player;
pub mod quest;
pub mod who;
