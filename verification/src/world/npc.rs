//! An NPC with qi and skill levels.

use vstd::prelude::*;

verus! {

/// A non-player character: qi and the levels of its skills by name.
pub struct Npc {
    pub id: u64,
    pub name: String,
    pub qi: u32,
    pub max_qi: u32,
    pub skills: Vec<(String, u32)>,
}

} // verus!
