//! NPC instances in the world, made from their prototypes.

use vstd::prelude::*;
use crate::combat::u32_as_i32;
use vstd::string::*;
use crate::combat::CombatState;
use crate::world_model::NpcPrototype;

verus! {

/// An NPC standing in a room.
pub struct Npc {
    pub instance_id: u64,
    pub prototype_id: u32,
    pub name: String,
    pub description: String,
    pub current_room: String,
    pub combat_target: Option<u64>,
    pub dialog_id: Option<String>,
    pub display_prefix: String,
    pub hp: i32,
    pub max_hp: i32,
    pub attack: i32,
    pub defense: i32,
    pub level: i32,
    pub combat_state: Option<CombatState>,
}

/// The prefix an NPC is shown with: its prototype's, or `NPC` when that is empty.
pub open spec fn npc_prefix(p: NpcPrototype) -> Seq<char> {
    if p.display_prefix@.len() == 0 { "NPC"@ } else { p.display_prefix@ }
}

/// Whether `n` is the fresh instance of prototype `proto_id` that
/// `from_prototype` makes: named and described as the prototype, in room
/// `room`, at the prototype's level, with no combat numbers yet.
pub open spec fn is_fresh_npc(n: Npc, instance_id: u64, proto_id: u32, p: NpcPrototype, room: Seq<char>) -> bool {
    &&& n.instance_id == instance_id
    &&& n.prototype_id == proto_id
    &&& n.name@ == p.name@
    &&& n.description@ == p.description@
    &&& n.current_room@ == room
    &&& n.combat_target is None
    &&& n.dialog_id == p.dialog_id
    &&& n.display_prefix@ == npc_prefix(p)
    &&& n.hp == 0
    &&& n.max_hp == 0
    &&& n.attack == 0
    &&& n.defense == 0
    &&& n.level == u32_as_i32(p.level)
    &&& n.combat_state is None
}

/// A copy of a combat state.
pub fn copy_combat_state(c: &CombatState) -> (r: CombatState)
    ensures
        r == *c,
{
    CombatState {
        target_id: c.target_id.clone(),
        target_name: c.target_name.clone(),
        target_is_player: c.target_is_player,
        current_skill_id: c.current_skill_id.clone(),
        combo_index: c.combo_index,
        last_attack_tick: c.last_attack_tick,
        is_in_combat: c.is_in_combat,
    }
}

impl Npc {
    /// A new instance of a prototype in room `room_id`.
    pub fn from_prototype(instance_id: u64, prototype_id: u32, prototype: &NpcPrototype, room_id: String) -> (n: Npc)
        ensures
            is_fresh_npc(n, instance_id, prototype_id, *prototype, room_id@),
    {
        let display_prefix = if prototype.display_prefix.unicode_len() == 0 {
            "NPC".to_string()
        } else {
            prototype.display_prefix.clone()
        };
        let level: i32 = if prototype.level <= 2147483647 {
            prototype.level as i32
        } else {
            (prototype.level as i64 - 4294967296) as i32
        };
        Npc {
            instance_id,
            prototype_id,
            name: prototype.name.clone(),
            description: prototype.description.clone(),
            current_room: room_id,
            combat_target: None,
            dialog_id: prototype.dialog_id.clone(),
            display_prefix,
            hp: 0,
            max_hp: 0,
            attack: 0,
            defense: 0,
            level,
            combat_state: None,
        }
    }

    /// Sets the combat numbers; the NPC starts at full health.
    pub fn init_combat_stats(&mut self, max_hp: i32, attack: i32, defense: i32)
        ensures
            *final(self) == (Npc { max_hp, hp: max_hp, attack, defense, ..*old(self) }),
    {
        self.max_hp = max_hp;
        self.hp = max_hp;
        self.attack = attack;
        self.defense = defense;
    }

    /// A copy of this NPC.
    pub fn duplicate(&self) -> (r: Npc)
        ensures
            r == *self,
    {
        let combat_state = match &self.combat_state {
            Some(c) => Some(copy_combat_state(c)),
            None => None,
        };
        Npc {
            instance_id: self.instance_id,
            prototype_id: self.prototype_id,
            name: self.name.clone(),
            description: self.description.clone(),
            current_room: self.current_room.clone(),
            combat_target: self.combat_target,
            dialog_id: self.dialog_id.clone(),
            display_prefix: self.display_prefix.clone(),
            hp: self.hp,
            max_hp: self.max_hp,
            attack: self.attack,
            defense: self.defense,
            level: self.level,
            combat_state,
        }
    }
}

} // verus!
