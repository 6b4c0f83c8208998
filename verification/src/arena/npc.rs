//! Non-player fighters of the arena.

use vstd::prelude::*;
use crate::arena::combat::Combatant;
use crate::arena::player_state::{BaseAttributes, DerivedStats, PlayerState, Progression};

verus! {

/// A non-player character of the arena.
#[derive(Debug)]
pub struct Npc {
    pub id: usize,
    pub name: String,
    pub state: PlayerState,
    /// The room where the NPC is currently located.
    pub room_id: usize,
}

/// The state of a freshly spawned bandit.
pub open spec fn bandit_state() -> PlayerState {
    PlayerState {
        base: BaseAttributes { strength: 12, agility: 10, constitution: 11, comprehension: 8 },
        derived: DerivedStats { hp: 30, max_hp: 30, mp: 0, max_mp: 0, stamina: 50, max_stamina: 50 },
        progression: Progression { level: 2, experience: 10, potential: 0 },
    }
}

impl Npc {
    /// A new bandit, ready to fight, in room `room_id`.
    pub fn new_bandit(id: usize, room_id: usize) -> (n: Npc)
        ensures
            n.id == id,
            n.room_id == room_id,
            n.name@ == "强盗"@,
            n.state == bandit_state(),
    {
        Npc {
            id,
            name: String::from_str("强盗"),
            room_id,
            state: PlayerState {
                base: BaseAttributes { strength: 12, agility: 10, constitution: 11, comprehension: 8 },
                derived: DerivedStats { hp: 30, max_hp: 30, mp: 0, max_mp: 0, stamina: 50, max_stamina: 50 },
                progression: Progression { level: 2, experience: 10, potential: 0 },
            },
        }
    }
}

impl Combatant for Npc {
    open spec fn id_of(&self) -> usize {
        self.id
    }

    open spec fn name_of(&self) -> Seq<char> {
        self.name@
    }

    open spec fn state_of(&self) -> PlayerState {
        self.state
    }

    fn get_id(&self) -> (r: usize) {
        self.id
    }

    fn get_name(&self) -> (r: &str) {
        self.name.as_str()
    }

    fn get_state(&self) -> (r: &PlayerState) {
        &self.state
    }

    fn get_mut_state(&mut self) -> (r: &mut PlayerState) {
        &mut self.state
    }
}

} // verus!
