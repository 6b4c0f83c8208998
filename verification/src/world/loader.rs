//! The static world: configuration, rooms, prototypes, quests, skills and
//! monster templates, as read from the data files.

use vstd::prelude::*;
use std::collections::HashMap;
use crate::world_model::{ItemPrototype, ItemZoneData, MonsterTemplate, NpcPrototype, NpcZoneData, Quest, QuestRegistry, Registry,
    Room, SkillTemplate, WorldConfig, ZoneData};
use crate::styled::chars_of;

verus! {

broadcast use vstd::std_specs::hash::group_hash_axioms;

/// All static world data. Rooms, quests, skills and monsters are keyed by
/// their ids; prototypes by number.
pub struct StaticWorldData {
    pub config: WorldConfig,
    pub rooms: Registry<Room>,
    pub npc_prototypes: HashMap<u32, NpcPrototype>,
    pub item_prototypes: HashMap<u32, ItemPrototype>,
    pub quests: Registry<Quest>,
    pub skills: Registry<SkillTemplate>,
    pub monsters: Registry<MonsterTemplate>,
}

impl StaticWorldData {
    /// The NPC prototype with number `id`, if any.
    pub fn npc_prototype(&self, id: u32) -> (r: Option<&NpcPrototype>)
        ensures
            match r {
                Some(p) => self.npc_prototypes@.contains_key(id) && *p == self.npc_prototypes@[id],
                None => !self.npc_prototypes@.contains_key(id),
            },
    {
        self.npc_prototypes.get(&id)
    }

    /// The item prototype with number `id`, if any.
    pub fn item_prototype(&self, id: u32) -> (r: Option<&ItemPrototype>)
        ensures
            match r {
                Some(p) => self.item_prototypes@.contains_key(id) && *p == self.item_prototypes@[id],
                None => !self.item_prototypes@.contains_key(id),
            },
    {
        self.item_prototypes.get(&id)
    }
}

/// What a file of the data directory holds, by its name.
#[derive(Clone, Copy, PartialEq, Eq, Structural, Debug)]
pub enum DataFileKind {
    Npcs,
    Items,
    QuestRegistry,
    Other,
}

/// Whether `s` ends with `suffix`.
pub open spec fn ends_with(s: Seq<char>, suffix: Seq<char>) -> bool {
    suffix.len() <= s.len() && s.subrange(s.len() - suffix.len(), s.len() as int) == suffix
}

/// The kind of a data file: NPC prototypes for a name ending in
/// `npcs.json`, item prototypes for one ending in `items.json`, the quests
/// for `quest_registry.json`.
pub open spec fn file_kind(name: Seq<char>) -> DataFileKind {
    if ends_with(name, "npcs.json"@) {
        DataFileKind::Npcs
    } else if ends_with(name, "items.json"@) {
        DataFileKind::Items
    } else if name == "quest_registry.json"@ {
        DataFileKind::QuestRegistry
    } else {
        DataFileKind::Other
    }
}

/// `str::ends_with`.
fn text_ends_with(s: &str, suffix: &str) -> (r: bool)
    ensures
        r == ends_with(s@, suffix@),
{
    let a = chars_of(s);
    let b = chars_of(suffix);
    if b.len() > a.len() {
        return false;
    }
    let off = a.len() - b.len();
    let mut i: usize = 0;
    while i < b.len()
        invariant
            a@ == s@,
            b@ == suffix@,
            off == a.len() - b.len(),
            i <= b.len(),
            forall|j: int| 0 <= j < i ==> a@[off + j] == b@[j],
        decreases b.len() - i,
    {
        if a[off + i] != b[i] {
            proof {
                assert(s@.subrange(off as int, s@.len() as int)[i as int] == a@[off + i]);
            }
            return false;
        }
        i = i + 1;
    }
    proof {
        assert(s@.subrange(off as int, s@.len() as int) =~= suffix@);
    }
    true
}

/// The kind of the data file named `file_name`.
pub fn data_file_kind(file_name: &str) -> (k: DataFileKind)
    ensures
        k == file_kind(file_name@),
{
    if text_ends_with(file_name, "npcs.json") {
        DataFileKind::Npcs
    } else if text_ends_with(file_name, "items.json") {
        DataFileKind::Items
    } else if crate::styled::same_text(file_name, "quest_registry.json") {
        DataFileKind::QuestRegistry
    } else {
        DataFileKind::Other
    }
}

/// A data file as parsed.
pub enum DataFile {
    Npcs(NpcZoneData),
    Items(ItemZoneData),
    Quests(QuestRegistry),
}

/// The rooms of the zones, zone after zone.
pub open spec fn zone_rooms(zones: Seq<ZoneData>) -> Seq<Room>
    decreases zones.len(),
{
    if zones.len() == 0 { Seq::empty() } else { zone_rooms(zones.drop_last()) + zones.last().rooms@ }
}

/// Rooms keyed by id, a later room replacing an earlier one with its id.
pub open spec fn rooms_by_id(rooms: Seq<Room>) -> Map<Seq<char>, Room>
    decreases rooms.len(),
{
    if rooms.len() == 0 { Map::empty() } else { rooms_by_id(rooms.drop_last()).insert(rooms.last().id@, rooms.last()) }
}

/// Pairs keyed by their numbers, a later pair replacing an earlier one.
pub open spec fn by_number<V>(pairs: Seq<(u32, V)>) -> Map<u32, V>
    decreases pairs.len(),
{
    if pairs.len() == 0 { Map::empty() } else { by_number(pairs.drop_last()).insert(pairs.last().0, pairs.last().1) }
}

/// The NPC prototypes of the files, file after file.
pub open spec fn npc_pairs(files: Seq<DataFile>) -> Seq<(u32, NpcPrototype)>
    decreases files.len(),
{
    if files.len() == 0 {
        Seq::empty()
    } else {
        npc_pairs(files.drop_last()) + match files.last() { DataFile::Npcs(z) => z.entities@, _ => Seq::empty() }
    }
}

/// The item prototypes of the files, file after file.
pub open spec fn item_pairs(files: Seq<DataFile>) -> Seq<(u32, ItemPrototype)>
    decreases files.len(),
{
    if files.len() == 0 {
        Seq::empty()
    } else {
        item_pairs(files.drop_last()) + match files.last() { DataFile::Items(z) => z.items@, _ => Seq::empty() }
    }
}

/// The quests of the last quest file, or none.
pub open spec fn last_quests(files: Seq<DataFile>) -> Option<Registry<Quest>>
    decreases files.len(),
{
    if files.len() == 0 {
        None
    } else {
        match files.last() {
            DataFile::Quests(q) => Some(q.quests),
            _ => last_quests(files.drop_last()),
        }
    }
}

/// Adds the pairs to the map in order.
fn insert_pairs<V>(m: &mut HashMap<u32, V>, pairs: Vec<(u32, V)>)
    ensures
        final(m)@ == old(m)@.union_prefer_right(by_number(pairs@)),
{
    let ghost all = pairs@;
    let ghost m0 = m@;
    let mut rest = pairs;
    let ghost mut done: int = 0;
    proof {
        assert(all.take(0) =~= Seq::<(u32, V)>::empty());
        assert(m@ =~= m0.union_prefer_right(by_number(all.take(0))));
        assert(rest@ =~= all.skip(0));
    }
    while rest.len() > 0
        invariant
            0 <= done <= all.len(),
            rest@ == all.skip(done),
            m@ == m0.union_prefer_right(by_number(all.take(done))),
        decreases rest.len(),
    {
        let (k, v) = rest.remove(0);
        proof { assert(all[done] == (k, v)); }
        m.insert(k, v);
        proof {
            let t = all.take(done + 1);
            assert(t.drop_last() =~= all.take(done));
            assert(t.last() == all[done]);
            assert(m@ =~= m0.union_prefer_right(by_number(t)));
            done = done + 1;
            assert(rest@ =~= all.skip(done));
        }
    }
    proof { assert(all.take(done) =~= all); }
}

/// Assembles the static world from the parsed files: the configuration;
/// the rooms of the map files, keyed by id; the NPC and item prototypes of
/// the data files, keyed by number; the quests of the quest file (none
/// without one); and the skills and monster templates.
pub fn load_all_data(
    config: WorldConfig,
    zones: Vec<ZoneData>,
    files: Vec<DataFile>,
    skills: Registry<SkillTemplate>,
    monsters: Registry<MonsterTemplate>,
) -> (d: StaticWorldData)
    ensures
        d.config == config,
        forall|id: Seq<char>| #[trigger] d.rooms.lookup(id) == (if rooms_by_id(zone_rooms(zones@)).contains_key(id) {
            Some(rooms_by_id(zone_rooms(zones@))[id])
        } else {
            None::<Room>
        }),
        d.npc_prototypes@ == by_number(npc_pairs(files@)),
        d.item_prototypes@ == by_number(item_pairs(files@)),
        match last_quests(files@) {
            Some(q) => d.quests == q,
            None => d.quests.entries@.len() == 0,
        },
        d.skills == skills,
        d.monsters == monsters,
{
    let ghost all_zones = zones@;
    let mut rooms: Registry<Room> = Registry::new();
    let mut zs = zones;
    let ghost mut zd: int = 0;
    proof {
        assert(all_zones.take(0) =~= Seq::<ZoneData>::empty());
        assert(zs@ =~= all_zones.skip(0));
    }
    while zs.len() > 0
        invariant
            0 <= zd <= all_zones.len(),
            zs@ == all_zones.skip(zd),
            forall|id: Seq<char>| #[trigger] rooms.lookup(id) == (if rooms_by_id(zone_rooms(all_zones.take(zd))).contains_key(id) {
                Some(rooms_by_id(zone_rooms(all_zones.take(zd)))[id])
            } else {
                None::<Room>
            }),
        decreases zs.len(),
    {
        let zone = zs.remove(0);
        proof { assert(all_zones[zd] == zone); }
        let ghost before = zone_rooms(all_zones.take(zd));
        let ghost zr = zone.rooms@;
        let mut rs = zone.rooms;
        let ghost mut rd: int = 0;
        proof {
            assert(zr.take(0) =~= Seq::<Room>::empty());
            assert(before + zr.take(0) =~= before);
            assert(rs@ =~= zr.skip(0));
        }
        while rs.len() > 0
            invariant
                0 <= rd <= zr.len(),
                rs@ == zr.skip(rd),
                forall|id: Seq<char>| #[trigger] rooms.lookup(id) == (if rooms_by_id(before + zr.take(rd)).contains_key(id) {
                    Some(rooms_by_id(before + zr.take(rd))[id])
                } else {
                    None::<Room>
                }),
            decreases rs.len(),
        {
            let room = rs.remove(0);
            proof { assert(zr[rd] == room); }
            let ghost rv = room;
            let key = room.id.clone();
            rooms.upsert(key, room);
            proof {
                let t = before + zr.take(rd + 1);
                assert(t.drop_last() =~= before + zr.take(rd));
                assert(t.last() == rv);
                rd = rd + 1;
                assert(rs@ =~= zr.skip(rd));
            }
        }
        proof {
            assert(zr.take(rd) =~= zr);
            let t = all_zones.take(zd + 1);
            assert(t.drop_last() =~= all_zones.take(zd));
            assert(t.last() == zone);
            assert(zone_rooms(t) == before + zr);
            zd = zd + 1;
            assert(zs@ =~= all_zones.skip(zd));
        }
    }
    proof { assert(all_zones.take(zd) =~= all_zones); }
    let ghost all_files = files@;
    let mut npc_prototypes: HashMap<u32, NpcPrototype> = HashMap::new();
    let mut item_prototypes: HashMap<u32, ItemPrototype> = HashMap::new();
    let mut quests: Registry<Quest> = Registry::new();
    let mut fs = files;
    let ghost mut fd: int = 0;
    proof {
        assert(all_files.take(0) =~= Seq::<DataFile>::empty());
        assert(fs@ =~= all_files.skip(0));
        assert(npc_prototypes@ =~= by_number(npc_pairs(all_files.take(0))));
        assert(item_prototypes@ =~= by_number(item_pairs(all_files.take(0))));
    }
    while fs.len() > 0
        invariant
            0 <= fd <= all_files.len(),
            fs@ == all_files.skip(fd),
            npc_prototypes@ == by_number(npc_pairs(all_files.take(fd))),
            item_prototypes@ == by_number(item_pairs(all_files.take(fd))),
            match last_quests(all_files.take(fd)) {
                Some(q) => quests == q,
                None => quests.entries@.len() == 0,
            },
        decreases fs.len(),
    {
        let f = fs.remove(0);
        proof { assert(all_files[fd] == f); }
        let ghost fv = f;
        let ghost t = all_files.take(fd + 1);
        proof {
            assert(t.drop_last() =~= all_files.take(fd));
            assert(t.last() == fv);
        }
        match f {
            DataFile::Npcs(z) => {
                let ghost ps = z.entities@;
                let ghost prev = npc_pairs(all_files.take(fd));
                insert_pairs(&mut npc_prototypes, z.entities);
                proof {
                    assert(npc_pairs(t) == prev + ps);
                    lemma_by_number_concat(prev, ps);
                    assert(item_pairs(t) =~= item_pairs(all_files.take(fd)));
                }
            },
            DataFile::Items(z) => {
                let ghost ps = z.items@;
                let ghost prev = item_pairs(all_files.take(fd));
                insert_pairs(&mut item_prototypes, z.items);
                proof {
                    assert(item_pairs(t) == prev + ps);
                    lemma_by_number_concat(prev, ps);
                    assert(npc_pairs(t) =~= npc_pairs(all_files.take(fd)));
                }
            },
            DataFile::Quests(q) => {
                quests = q.quests;
                proof {
                    assert(npc_pairs(t) =~= npc_pairs(all_files.take(fd)));
                    assert(item_pairs(t) =~= item_pairs(all_files.take(fd)));
                }
            },
        }
        proof {
            fd = fd + 1;
            assert(fs@ =~= all_files.skip(fd));
        }
    }
    proof { assert(all_files.take(fd) =~= all_files); }
    StaticWorldData { config, rooms, npc_prototypes, item_prototypes, quests, skills, monsters }
}

/// Keying two runs of pairs is keying the first, then the second over it.
proof fn lemma_by_number_concat<V>(a: Seq<(u32, V)>, b: Seq<(u32, V)>)
    ensures
        by_number(a + b) == by_number(a).union_prefer_right(by_number(b)),
    decreases b.len(),
{
    if b.len() == 0 {
        assert(a + b =~= a);
        assert(by_number(a).union_prefer_right(by_number(b)) =~= by_number(a));
    } else {
        lemma_by_number_concat(a, b.drop_last());
        assert((a + b).drop_last() =~= a + b.drop_last());
        assert((a + b).last() == b.last());
        assert(by_number(a + b) =~= by_number(a).union_prefer_right(by_number(b)));
    }
}

} // verus!
