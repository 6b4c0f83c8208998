//! The static game data: world configuration, rooms, NPC and item
//! prototypes, quests, skills and monsters.

use vstd::prelude::*;
use crate::styled::same_text;
pub use crate::world::world_item::ItemPrototype;

verus! {

/// A table of entries looked up by a text key. A key is found at its first
/// entry; the loaders keep keys distinct.
pub struct Registry<T> {
    pub entries: Vec<(String, T)>,
}

/// The entry of the first pair whose key is `key`.
pub open spec fn find_entry<T>(entries: Seq<(String, T)>, key: Seq<char>) -> Option<T>
    decreases entries.len(),
{
    if entries.len() == 0 {
        None
    } else if entries[0].0@ == key {
        Some(entries[0].1)
    } else {
        find_entry(entries.drop_first(), key)
    }
}

/// The position of the first pair whose key is `key`.
pub open spec fn find_index<T>(entries: Seq<(String, T)>, key: Seq<char>) -> int
    decreases entries.len(),
{
    if entries.len() == 0 {
        -1
    } else if entries[0].0@ == key {
        0
    } else {
        let r = find_index(entries.drop_first(), key);
        if r < 0 { -1 } else { r + 1 }
    }
}

pub proof fn lemma_find_index<T>(entries: Seq<(String, T)>, key: Seq<char>)
    ensures
        -1 <= find_index(entries, key) < entries.len(),
        find_index(entries, key) >= 0 ==> entries[find_index(entries, key)].0@ == key
            && find_entry(entries, key) == Some(entries[find_index(entries, key)].1),
        find_index(entries, key) >= 0 ==> forall|j: int|
            0 <= j < find_index(entries, key) ==> entries[j].0@ != key,
        find_index(entries, key) < 0 ==> find_entry(entries, key) is None && forall|j: int|
            0 <= j < entries.len() ==> entries[j].0@ != key,
    decreases entries.len(),
{
    if entries.len() > 0 {
        lemma_find_index(entries.drop_first(), key);
        if entries[0].0@ != key {
            assert forall|j: int| 1 <= j < entries.len() implies entries[j] == entries.drop_first()[j - 1] by {}
        }
    }
}

/// Replacing the value of an entry leaves the lookup of every key alike,
/// except the entry's own key, which finds the new value if that entry is
/// the first under it.
pub proof fn lemma_find_entry_update<T>(entries: Seq<(String, T)>, i: int, v: T, key: Seq<char>)
    requires
        0 <= i < entries.len(),
    ensures
        entries[i].0@ != key ==> find_entry(entries.update(i, (entries[i].0, v)), key) == find_entry(entries, key),
        find_index(entries, entries[i].0@) == i ==> find_entry(entries.update(i, (entries[i].0, v)), entries[i].0@) == Some(v),
        find_index(entries.update(i, (entries[i].0, v)), key) == find_index(entries, key),
    decreases entries.len(),
{
    let u = entries.update(i, (entries[i].0, v));
    if i > 0 {
        lemma_find_entry_update(entries.drop_first(), i - 1, v, key);
        assert(u.drop_first() =~= entries.drop_first().update(i - 1, (entries[i].0, v)));
        lemma_find_entry_update(entries.drop_first(), i - 1, v, entries[i].0@);
    } else {
        assert(u.drop_first() =~= entries.drop_first());
    }
}

/// Adding an entry at the end leaves the lookup of keys already present alike,
/// and makes a new key find the added value.
pub proof fn lemma_find_entry_push<T>(entries: Seq<(String, T)>, x: (String, T), key: Seq<char>)
    ensures
        find_entry(entries, key) is Some ==> find_entry(entries.push(x), key) == find_entry(entries, key),
        find_entry(entries, key) is None ==> find_entry(entries.push(x), key) == (if x.0@ == key { Some(x.1) } else { None }),
        find_index(entries, key) >= 0 ==> find_index(entries.push(x), key) == find_index(entries, key),
        find_index(entries, key) < 0 && x.0@ == key ==> find_index(entries.push(x), key) == entries.len(),
    decreases entries.len(),
{
    if entries.len() > 0 {
        assert(entries.push(x).drop_first() =~= entries.drop_first().push(x));
        assert(entries.push(x)[0] == entries[0]);
        lemma_find_entry_push(entries.drop_first(), x, key);
    } else {
        assert(entries.push(x).drop_first() =~= Seq::<(String, T)>::empty());
        assert(entries.push(x)[0] == x);
        assert(find_entry(entries.push(x).drop_first(), key) is None);
    }
}

impl<T> Registry<T> {
    pub open spec fn lookup(&self, key: Seq<char>) -> Option<T> {
        find_entry(self.entries@, key)
    }

    pub open spec fn has(&self, key: Seq<char>) -> bool {
        self.lookup(key) is Some
    }

    /// An empty table.
    pub fn new() -> (r: Registry<T>)
        ensures
            r.entries@.len() == 0,
    {
        Registry { entries: Vec::new() }
    }

    /// The position of the entry under `key`.
    pub fn index_of(&self, key: &str) -> (r: Option<usize>)
        ensures
            r is None <==> find_index(self.entries@, key@) < 0,
            r is Some ==> r->0 as int == find_index(self.entries@, key@),
    {
        proof { lemma_find_index(self.entries@, key@); }
        let mut i: usize = 0;
        while i < self.entries.len()
            invariant
                i <= self.entries.len(),
                forall|j: int| 0 <= j < i ==> self.entries@[j].0@ != key@,
                -1 <= find_index(self.entries@, key@) < self.entries.len(),
                find_index(self.entries@, key@) >= 0 ==> self.entries@[find_index(self.entries@, key@)].0@ == key@,
                find_index(self.entries@, key@) >= 0 ==> forall|j: int|
                    0 <= j < find_index(self.entries@, key@) ==> self.entries@[j].0@ != key@,
                find_index(self.entries@, key@) < 0 ==> forall|j: int|
                    0 <= j < self.entries.len() ==> self.entries@[j].0@ != key@,
            decreases self.entries.len() - i,
        {
            if same_text(self.entries[i].0.as_str(), key) {
                return Some(i);
            }
            i = i + 1;
        }
        None
    }

    /// The entry under `key`.
    pub fn get(&self, key: &str) -> (r: Option<&T>)
        ensures
            r matches Some(v) ==> self.lookup(key@) == Some(*v),
            r is None ==> self.lookup(key@) is None,
    {
        proof { lemma_find_index(self.entries@, key@); }
        match self.index_of(key) {
            Some(i) => Some(&self.entries[i].1),
            None => None,
        }
    }

    /// Whether there is an entry under `key`.
    pub fn contains_key(&self, key: &str) -> (r: bool)
        ensures
            r == self.has(key@),
    {
        proof { lemma_find_index(self.entries@, key@); }
        self.index_of(key).is_some()
    }

    /// Adds an entry at the end; an earlier entry under the same key stays in force.
    pub fn insert(&mut self, key: String, value: T)
        ensures
            final(self).entries@ == old(self).entries@.push((key, value)),
    {
        self.entries.push((key, value));
    }

    /// Puts `value` under `key`: it replaces the entry under that key, or
    /// is added at the end. Other keys keep their entries.
    pub fn upsert(&mut self, key: String, value: T)
        ensures
            final(self).lookup(key@) == Some(value),
            forall|k: Seq<char>| k != key@ ==> #[trigger] final(self).lookup(k) == old(self).lookup(k),
            final(self).entries@.len() == old(self).entries@.len() + (if old(self).has(key@) { 0int } else { 1int }),
            forall|i: int| 0 <= i < final(self).entries@.len() ==> (#[trigger] final(self).entries@[i]).1 == value
                || old(self).entries@.contains(final(self).entries@[i]),
    {
        let ghost e0 = self.entries@;
        proof { lemma_find_index(e0, key@); }
        match self.index_of(key.as_str()) {
            Some(i) => {
                let (k, _old_value) = self.entries.remove(i);
                self.entries.insert(i, (k, value));
                proof {
                    let e1 = self.entries@;
                    assert(e1 =~= e0.update(i as int, (e0[i as int].0, value)));
                    assert forall|j: int| 0 <= j < e1.len() implies (#[trigger] e1[j]).1 == value || e0.contains(e1[j]) by {
                        if j != i as int {
                            assert(e1[j] == e0[j]);
                        }
                    }
                    lemma_find_entry_update(e0, i as int, value, key@);
                    assert forall|kk: Seq<char>| kk != key@ implies #[trigger] find_entry(e1, kk) == find_entry(e0, kk) by {
                        lemma_find_entry_update(e0, i as int, value, kk);
                    }
                }
            },
            None => {
                let ghost kv = key@;
                self.entries.push((key, value));
                proof {
                    let e1 = self.entries@;
                    assert forall|j: int| 0 <= j < e1.len() implies (#[trigger] e1[j]).1 == value || e0.contains(e1[j]) by {
                        if j < e0.len() {
                            assert(e1[j] == e0[j]);
                        }
                    }
                    lemma_find_entry_push(e0, e1.last(), kv);
                    assert forall|kk: Seq<char>| kk != kv implies #[trigger] find_entry(e1, kk) == find_entry(e0, kk) by {
                        lemma_find_entry_push(e0, e1.last(), kk);
                    }
                }
            },
        }
    }
}

/// A realm of cultivation and the level that it takes.
pub struct Realm {
    pub name: String,
    pub level_required: u16,
}

/// The world configuration (`world_config.json`).
pub struct WorldConfig {
    pub realms: Vec<Realm>,
    pub combat_tick_ms: u64,
    pub player_display_prefix: String,
}

/// A room of a map file.
pub struct Room {
    pub id: String,
    pub name: String,
    pub description: String,
    /// Direction and the id of the room it leads to.
    pub exits: Vec<(String, String)>,
    pub npcs: Vec<u32>,
    pub items: Vec<u32>,
}

/// A map file: a zone and its rooms.
pub struct ZoneData {
    pub zone: String,
    pub name: String,
    pub rooms: Vec<Room>,
}

/// An NPC file: a zone and its NPC prototypes with their ids, each id once.
pub struct NpcZoneData {
    pub zone: String,
    pub entities: Vec<(u32, NpcPrototype)>,
}

/// The template of an NPC.
pub struct NpcPrototype {
    pub name: String,
    pub title: String,
    pub description: String,
    pub level: u32,
    pub ai: String,
    pub flags: Vec<String>,
    pub dialog_id: Option<String>,
    pub scripts: Vec<(String, String)>,
    pub display_prefix: String,
}

/// An item file: its item prototypes with their ids, each id once.
pub struct ItemZoneData {
    pub zone: String,
    pub items: Vec<(u32, ItemPrototype)>,
}

/// One step of a quest: what to do (`move`, `talk`, ...) and to what.
pub struct QuestStep {
    pub step_type: String,
    pub target_id: String,
    pub description: String,
    pub dialog_id: Option<String>,
}

/// What a quest gives when it is done.
#[derive(Clone, Copy)]
pub struct QuestRewards {
    pub exp: Option<u64>,
    pub shell: Option<u64>,
    pub potential: Option<u64>,
}

/// A quest: either a chain of steps, or (type `kill`) a number of kills of one monster.
pub struct Quest {
    pub id: String,
    pub name: String,
    pub description: String,
    pub quest_type: String,
    pub target_id: String,
    pub target_count: Option<u32>,
    pub steps: Vec<QuestStep>,
    pub rewards: QuestRewards,
}

/// The quest file: quests by id.
pub struct QuestRegistry {
    pub quests: Registry<Quest>,
}

/// One move of a skill's combo; the damage multiplier is in thousandths.
pub struct SkillMove {
    pub name: String,
    pub description: String,
    pub damage_multiplier_permille: i32,
}

/// A castable skill; the scaling multiplier is in thousandths.
pub struct SkillTemplate {
    pub id: String,
    pub name: String,
    pub description: String,
    pub cost_qi: u32,
    pub cost_hp: u32,
    pub base_damage: i32,
    pub scaling_attr: String,
    pub scaling_multiplier_permille: i32,
    pub cooldown: u32,
    pub is_magic: bool,
    pub moves: Vec<SkillMove>,
}

/// A description of health for health ratios from a threshold (in thousandths) up.
pub struct HealthStateTemplate {
    pub hp_threshold_permille: i32,
    pub description: String,
}

/// The combat statistics of a monster.
pub struct MonsterTemplate {
    pub name: String,
    pub max_hp: u32,
    pub attack: u32,
    pub defense: u32,
    pub default_skill_id: Option<String>,
}

} // verus!
