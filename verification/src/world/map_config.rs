//! The layout of a map file: rooms with their exits and spawns, and NPCs.

use vstd::prelude::*;

verus! {

/// A map file: a zone's rooms and NPCs.
pub struct MapConfig {
    pub zone: String,
    pub name: String,
    pub rooms: Vec<RoomConfig>,
    pub npcs: Vec<NpcConfig>,
}

/// A spawn point: up to `max` NPCs of number `npc`.
#[derive(Clone, Copy)]
pub struct SpawnConfig {
    pub npc: u64,
    pub max: u8,
}

/// A room of a map file; exits are a direction and the id of the room it leads to.
pub struct RoomConfig {
    pub id: String,
    pub name: String,
    pub description: String,
    pub spawns: Vec<SpawnConfig>,
    pub exits: Vec<(String, String)>,
    pub npcs: Vec<u64>,
}

/// An NPC of a map file and the room it starts in.
pub struct NpcConfig {
    pub id: u64,
    pub name: String,
    pub description: String,
    pub starting_room: String,
}

} // verus!
