//! The state of an arena fighter: base attributes, derived vitals and
//! progression.

use vstd::prelude::*;

verus! {

/// The attributes a fighter is born with.
#[derive(Clone, Copy, Debug, PartialEq, Eq)]
pub struct BaseAttributes {
    pub strength: i32,
    pub agility: i32,
    pub constitution: i32,
    pub comprehension: i32,
}

/// Vitals derived from the attributes.
#[derive(Clone, Copy, Debug, PartialEq, Eq)]
pub struct DerivedStats {
    pub hp: i32,
    pub max_hp: i32,
    pub mp: i32,
    pub max_mp: i32,
    pub stamina: i32,
    pub max_stamina: i32,
}

/// How far a fighter has come.
#[derive(Clone, Copy, Debug, PartialEq, Eq)]
pub struct Progression {
    pub level: u32,
    pub experience: u64,
    pub potential: u64,
}

/// The whole state of a fighter.
#[derive(Clone, Copy, Debug, PartialEq, Eq)]
pub struct PlayerState {
    pub base: BaseAttributes,
    pub derived: DerivedStats,
    pub progression: Progression,
}

/// What is kept of a player between connections: its state and the room
/// it was in.
#[derive(Clone, Copy, Debug)]
pub struct PersistentPlayerData {
    pub state: PlayerState,
    pub room_id: usize,
}

} // verus!
