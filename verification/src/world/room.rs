//! A room of a zone, with numbered exits and the players in it.

use vstd::prelude::*;
use std::collections::HashSet;

verus! {

broadcast use vstd::std_specs::hash::group_hash_axioms;

/// A room: its exits (a direction and the number of the room it leads to),
/// the NPC and item prototypes in it, and the players standing in it.
pub struct Room {
    pub id: u32,
    pub name: String,
    pub description: String,
    pub exits: Vec<(String, u32)>,
    pub npcs: Vec<u32>,
    pub items: Vec<u32>,
    pub players: HashSet<u64>,
}

impl Room {
    /// The room's description.
    pub fn get_description(&self) -> (r: &str)
        ensures
            r@ == self.description@,
    {
        self.description.as_str()
    }

    /// The room's exits.
    pub fn get_exits(&self) -> (r: &Vec<(String, u32)>)
        ensures
            r == &self.exits,
    {
        &self.exits
    }

    /// A player enters the room.
    pub fn add_player(&mut self, player_id: u64)
        ensures
            final(self).players@ == old(self).players@.insert(player_id),
            *final(self) == (Room { players: final(self).players, ..*old(self) }),
    {
        self.players.insert(player_id);
    }

    /// A player leaves the room.
    pub fn remove_player(&mut self, player_id: u64)
        ensures
            final(self).players@ == old(self).players@.remove(player_id),
            *final(self) == (Room { players: final(self).players, ..*old(self) }),
    {
        self.players.remove(&player_id);
    }

    /// The NPC prototypes in the room.
    pub fn get_npc_ids(&self) -> (r: &Vec<u32>)
        ensures
            r == &self.npcs,
    {
        &self.npcs
    }
}

} // verus!
