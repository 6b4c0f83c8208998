//! Martial skills: their kinds, ranks, damage kinds and actions.

use vstd::prelude::*;

verus! {

/// The kind of a skill.
#[derive(Clone, Copy, PartialEq, Eq, Debug, Hash)]
pub enum SkillType {
    Unarmed,
    Sword,
    Blade,
    Staff,
    Whip,
    Throwing,
    Poison,
    Internal,
    Lightness,
    Knowledge,
}

/// The rank of a skill.
#[derive(Clone, Copy, PartialEq, Eq, Debug, Hash)]
pub enum SkillClass {
    Basic,
    Advanced,
    Special,
    Forbidden,
}

/// The kind of damage a skill deals.
#[derive(Clone, Copy, PartialEq, Eq, Debug, Hash)]
pub enum DamageType {
    Blunt,
    Slash,
    Pierce,
    Internal,
    Poison,
}

/// What a skill does at a level.
pub struct Action {
    pub lvl: u32,
    pub damage: u32,
    pub force: u32,
    pub dodge: u32,
    pub parry: u32,
    pub damage_type: DamageType,
    pub description: String,
}

/// A special move of a skill; it carries no data yet.
#[derive(Clone, Copy)]
pub struct Perform {}

/// A skill: its kind, rank, practice limit, actions and special moves.
pub struct Skill {
    pub id: u64,
    pub name: String,
    pub skill_type: SkillType,
    pub skill_class: SkillClass,
    pub practice_limit: u32,
    pub actions: Vec<Action>,
    pub performs: Vec<Perform>,
}

} // verus!
