//! The changing state of the world: where players stand, the NPC instances,
//! and the items lying in rooms.

use vstd::prelude::*;
use vstd::string::*;
use crate::npc::{Npc, is_fresh_npc};
use crate::combat::{u32_as_i32, u32_to_i32};
use crate::chance::choose_from;
use crate::world_model::{MonsterTemplate, NpcPrototype};
use crate::styled::same_text;
use crate::world::loader::StaticWorldData;
use crate::world_model::{Registry, Room, find_entry, find_index, lemma_find_index, lemma_find_entry_update, lemma_find_entry_push};
use crate::command::views_of;

verus! {

/// Where a player stands, and the name shown once logged in.
pub struct PlayerLocation {
    pub room_id: String,
    pub user_name: Option<String>,
}

/// The mutable part of the world.
pub struct DynamicData {
    /// Player ids and their locations; each id once.
    pub players: Vec<(u64, PlayerLocation)>,
    /// The NPC instances; each instance id once, all below `next_npc_id`.
    pub npcs: Vec<Npc>,
    /// The items lying in each room, by room id.
    pub room_items: Registry<Vec<u32>>,
    /// The instance id the next spawned NPC gets.
    pub next_npc_id: u64,
}

/// The static world and its changing state.
pub struct WorldState {
    pub static_data: StaticWorldData,
    pub dynamic_data: DynamicData,
}

/// The position of the first location of `id`, or -1.
pub open spec fn loc_index(ps: Seq<(u64, PlayerLocation)>, id: u64) -> int
    decreases ps.len(),
{
    if ps.len() == 0 {
        -1
    } else if ps[0].0 == id {
        0
    } else {
        let r = loc_index(ps.drop_first(), id);
        if r < 0 { -1 } else { r + 1 }
    }
}

/// The location of player `id`.
pub open spec fn loc_of(ps: Seq<(u64, PlayerLocation)>, id: u64) -> Option<PlayerLocation> {
    let i = loc_index(ps, id);
    if i < 0 { None } else { Some(ps[i].1) }
}

/// Each player id once.
pub open spec fn player_ids_distinct(ps: Seq<(u64, PlayerLocation)>) -> bool {
    forall|i: int, j: int| 0 <= i < j < ps.len() ==> ps[i].0 != ps[j].0
}

/// Each instance id once, and all below `next`.
pub open spec fn npc_ids_ok(ns: Seq<Npc>, next: u64) -> bool {
    &&& forall|i: int, j: int| 0 <= i < j < ns.len() ==> ns[i].instance_id != ns[j].instance_id
    &&& forall|i: int| 0 <= i < ns.len() ==> ns[i].instance_id < next
}

pub proof fn lemma_loc_index(ps: Seq<(u64, PlayerLocation)>, id: u64)
    ensures
        -1 <= loc_index(ps, id) < ps.len(),
        loc_index(ps, id) >= 0 ==> ps[loc_index(ps, id)].0 == id,
        loc_index(ps, id) >= 0 ==> forall|j: int| 0 <= j < loc_index(ps, id) ==> ps[j].0 != id,
        loc_index(ps, id) < 0 ==> forall|j: int| 0 <= j < ps.len() ==> ps[j].0 != id,
    decreases ps.len(),
{
    if ps.len() > 0 {
        lemma_loc_index(ps.drop_first(), id);
        if ps[0].0 != id {
            assert forall|j: int| 1 <= j < ps.len() implies ps[j] == ps.drop_first()[j - 1] by {}
        }
    }
}

/// The first position at which `id` stands is the one `loc_index` names.
pub proof fn lemma_loc_index_at(ps: Seq<(u64, PlayerLocation)>, id: u64, i: int)
    requires
        0 <= i < ps.len(),
        ps[i].0 == id,
        forall|j: int| 0 <= j < i ==> ps[j].0 != id,
    ensures
        loc_index(ps, id) == i,
{
    lemma_loc_index(ps, id);
    if loc_index(ps, id) < i {
        assert(ps[loc_index(ps, id)].0 == id);
    }
}

/// The names of the logged-in players in room `room`, other than `exclude`,
/// in the order of the table.
pub open spec fn names_in_room(ps: Seq<(u64, PlayerLocation)>, room: Seq<char>, exclude: u64) -> Seq<Seq<char>>
    decreases ps.len(),
{
    if ps.len() == 0 {
        seq![]
    } else {
        let rest = names_in_room(ps.drop_last(), room, exclude);
        let (id, loc) = ps.last();
        if id != exclude && loc.room_id@ == room && loc.user_name is Some {
            rest.push(loc.user_name->0@)
        } else {
            rest
        }
    }
}

/// The NPCs standing in room `room`, in the order of the table.
pub open spec fn npcs_in(ns: Seq<Npc>, room: Seq<char>) -> Seq<Npc>
    decreases ns.len(),
{
    if ns.len() == 0 {
        seq![]
    } else {
        let rest = npcs_in(ns.drop_last(), room);
        if ns.last().current_room@ == room { rest.push(ns.last()) } else { rest }
    }
}

/// The number of NPCs standing in room `room`.
pub open spec fn npc_count_in(ns: Seq<Npc>, room: Seq<char>) -> nat {
    npcs_in(ns, room).len()
}

/// The items lying in room `room` (none when the room has no entry).
pub open spec fn items_in(ri: Registry<Vec<u32>>, room: Seq<char>) -> Seq<u32> {
    match ri.lookup(room) {
        Some(v) => v@,
        None => seq![],
    }
}

/// The spawns of a respawn pass over the rooms: in each room that lists NPC
/// prototypes and where no NPC of `ns` stands, one NPC of the prototype
/// `picks` names for that room, if that prototype exists. Each spawn is the
/// prototype number and the room id.
pub open spec fn respawn_slots(
    rooms: Seq<(String, Room)>,
    ns: Seq<Npc>,
    protos: Map<u32, NpcPrototype>,
    picks: Seq<u32>,
) -> Seq<(u32, Seq<char>)>
    decreases rooms.len(),
{
    if rooms.len() == 0 {
        seq![]
    } else {
        let prev = respawn_slots(rooms.drop_last(), ns, protos, picks);
        let k = rooms.len() - 1;
        let room = rooms[k].1;
        if room.npcs@.len() > 0 && npc_count_in(ns, room.id@) == 0 && protos.contains_key(picks[k]) {
            prev.push((picks[k], room.id@))
        } else {
            prev
        }
    }
}

/// The rooms that list NPC prototypes and where no NPC of `ns` stands: the
/// most NPCs a respawn pass can add.
pub open spec fn empty_rooms(rooms: Seq<(String, Room)>, ns: Seq<Npc>) -> nat
    decreases rooms.len(),
{
    if rooms.len() == 0 {
        0
    } else {
        empty_rooms(rooms.drop_last(), ns)
            + (if rooms.last().1.npcs@.len() > 0 && npc_count_in(ns, rooms.last().1.id@) == 0 { 1nat } else { 0nat })
    }
}

/// A respawn pass adds at most one NPC per empty room.
pub proof fn lemma_slots_within(rooms: Seq<(String, Room)>, ns: Seq<Npc>, protos: Map<u32, NpcPrototype>, picks: Seq<u32>)
    ensures
        respawn_slots(rooms, ns, protos, picks).len() <= empty_rooms(rooms, ns),
    decreases rooms.len(),
{
    if rooms.len() > 0 {
        lemma_slots_within(rooms.drop_last(), ns, protos, picks);
    }
}

/// A prefix of the rooms has no more empty rooms than all of them.
pub proof fn lemma_empty_rooms_prefix(rooms: Seq<(String, Room)>, ns: Seq<Npc>, k: int)
    requires
        0 <= k <= rooms.len(),
    ensures
        empty_rooms(rooms.take(k), ns) <= empty_rooms(rooms, ns),
    decreases rooms.len(),
{
    if k == rooms.len() {
        assert(rooms.take(k) =~= rooms);
    } else {
        lemma_empty_rooms_prefix(rooms.drop_last(), ns, k);
        assert(rooms.drop_last().take(k) =~= rooms.take(k));
    }
}

/// The NPCs `ns` followed by fresh instances for `slots`, numbered from `first`.
pub open spec fn spawned_after(ns_new: Seq<Npc>, ns: Seq<Npc>, slots: Seq<(u32, Seq<char>)>, protos: Map<u32, NpcPrototype>, first: u64) -> bool {
    &&& ns_new.len() == ns.len() + slots.len()
    &&& forall|i: int| 0 <= i < ns.len() ==> ns_new[i] == ns[i]
    &&& forall|j: int| 0 <= j < slots.len() ==> is_fresh_npc(
        #[trigger] ns_new[ns.len() + j], (first + j) as u64, slots[j].0, protos[slots[j].0], slots[j].1)
}

impl DynamicData {
    pub open spec fn wf(&self) -> bool {
        &&& player_ids_distinct(self.players@)
        &&& npc_ids_ok(self.npcs@, self.next_npc_id)
    }
}

/// Among distinct ids, the location of `o` is that of its entry.
pub proof fn lemma_loc_of_entry(ps: Seq<(u64, PlayerLocation)>, o: u64, j: int)
    requires
        player_ids_distinct(ps),
        0 <= j < ps.len(),
        ps[j].0 == o,
    ensures
        loc_of(ps, o) == Some(ps[j].1),
{
    assert forall|k: int| 0 <= k < j implies ps[k].0 != o by {}
    lemma_loc_index_at(ps, o, j);
}

/// Without an entry for `o`, `o` has no location.
pub proof fn lemma_loc_of_absent(ps: Seq<(u64, PlayerLocation)>, o: u64)
    requires
        forall|j: int| 0 <= j < ps.len() ==> ps[j].0 != o,
    ensures
        loc_of(ps, o) is None,
{
    lemma_loc_index(ps, o);
    if loc_index(ps, o) >= 0 {
        assert(ps[loc_index(ps, o)].0 == o);
    }
}

/// A respawn pass from `w0` to `w1`: for some pick of a prototype from each
/// room's list, every room that lists prototypes and holds no NPC gets one
/// NPC of its pick (see `respawn_slots`), numbered on from `next_npc_id`;
/// nothing else changes.
pub open spec fn respawn_pass(w0: WorldState, w1: WorldState) -> bool {
    &&& exists|picks: Seq<u32>| picks.len() == w0.static_data.rooms.entries@.len()
        && (forall|k: int| 0 <= k < picks.len() && w0.static_data.rooms.entries@[k].1.npcs@.len() > 0
            ==> w0.static_data.rooms.entries@[k].1.npcs@.contains(#[trigger] picks[k]))
        && spawned_after(
            w1.dynamic_data.npcs@,
            w0.dynamic_data.npcs@,
            respawn_slots(w0.static_data.rooms.entries@, w0.dynamic_data.npcs@, w0.static_data.npc_prototypes@, picks),
            w0.static_data.npc_prototypes@,
            w0.dynamic_data.next_npc_id,
        )
        && w1.dynamic_data.next_npc_id == w0.dynamic_data.next_npc_id
            + respawn_slots(w0.static_data.rooms.entries@, w0.dynamic_data.npcs@, w0.static_data.npc_prototypes@, picks).len()
    &&& w1.dynamic_data.players == w0.dynamic_data.players
    &&& w1.dynamic_data.room_items == w0.dynamic_data.room_items
    &&& w1.static_data == w0.static_data
}

impl WorldState {
    /// The state is well formed: each player once, each NPC instance once.
    pub open spec fn wf(&self) -> bool {
        self.dynamic_data.wf()
    }

    /// The room with id `room_id`.
    pub fn get_room(&self, room_id: &str) -> (r: Option<&Room>)
        ensures
            r matches Some(v) ==> self.static_data.rooms.lookup(room_id@) == Some(*v),
            r is None ==> self.static_data.rooms.lookup(room_id@) is None,
    {
        self.static_data.rooms.get(room_id)
    }

    /// Puts player `player_id` in room `to_room_id` under the name `user_name`;
    /// the other players stay where they are.
    pub fn move_player_to_room(&mut self, player_id: u64, to_room_id: &str, user_name: Option<String>)
        requires
            old(self).wf(),
        ensures
            final(self).wf(),
            loc_of(final(self).dynamic_data.players@, player_id) matches Some(l)
                && l.room_id@ == to_room_id@ && l.user_name == user_name,
            forall|o: u64| o != player_id ==> loc_of(final(self).dynamic_data.players@, o) == loc_of(old(self).dynamic_data.players@, o),
            final(self).dynamic_data.npcs == old(self).dynamic_data.npcs,
            final(self).dynamic_data.room_items == old(self).dynamic_data.room_items,
            final(self).dynamic_data.next_npc_id == old(self).dynamic_data.next_npc_id,
            final(self).static_data == old(self).static_data,
    {
        let ghost ps0 = self.dynamic_data.players@;
        proof { lemma_loc_index(ps0, player_id); }
        let loc = PlayerLocation { room_id: to_room_id.to_string(), user_name };
        let mut i: usize = 0;
        while i < self.dynamic_data.players.len() && self.dynamic_data.players[i].0 != player_id
            invariant
                i <= self.dynamic_data.players.len(),
                self.dynamic_data.players@ == ps0,
                *self == *old(self),
                forall|j: int| 0 <= j < i ==> ps0[j].0 != player_id,
            decreases self.dynamic_data.players.len() - i,
        {
            i = i + 1;
        }
        if i < self.dynamic_data.players.len() {
            self.dynamic_data.players.set(i, (player_id, loc));
            proof {
                let ps1 = self.dynamic_data.players@;
                assert(ps0[i as int].0 == player_id);
                lemma_loc_index_at(ps0, player_id, i as int);
                assert forall|a: int, b: int| 0 <= a < b < ps1.len() implies ps1[a].0 != ps1[b].0 by {
                    assert(ps1[a].0 == ps0[a].0 && ps1[b].0 == ps0[b].0);
                }
                lemma_loc_index_at(ps1, player_id, i as int);
                assert forall|o: u64| o != player_id implies loc_of(ps1, o) == loc_of(ps0, o) by {
                    lemma_loc_index(ps0, o);
                    if loc_index(ps0, o) >= 0 {
                        lemma_loc_index_at(ps1, o, loc_index(ps0, o));
                    } else {
                        lemma_loc_index(ps1, o);
                        if loc_index(ps1, o) >= 0 {
                            assert(ps0[loc_index(ps1, o)].0 == o);
                        }
                    }
                }
            }
        } else {
            self.dynamic_data.players.push((player_id, loc));
            proof {
                let ps1 = self.dynamic_data.players@;
                lemma_loc_index_at(ps1, player_id, ps0.len() as int);
                assert forall|o: u64| o != player_id implies loc_of(ps1, o) == loc_of(ps0, o) by {
                    lemma_loc_index(ps0, o);
                    if loc_index(ps0, o) >= 0 {
                        lemma_loc_index_at(ps1, o, loc_index(ps0, o));
                    } else {
                        lemma_loc_index(ps1, o);
                        if loc_index(ps1, o) >= 0 {
                            assert(loc_index(ps1, o) < ps0.len());
                            assert(ps0[loc_index(ps1, o)].0 == o);
                        }
                    }
                }
            }
        }
    }

    /// Takes player `player_id` out of the world; the other players stay
    /// where they are.
    pub fn remove_player(&mut self, player_id: u64)
        requires
            old(self).wf(),
        ensures
            final(self).wf(),
            loc_of(final(self).dynamic_data.players@, player_id) is None,
            forall|o: u64| o != player_id ==> loc_of(final(self).dynamic_data.players@, o) == loc_of(old(self).dynamic_data.players@, o),
            final(self).dynamic_data.npcs == old(self).dynamic_data.npcs,
            final(self).dynamic_data.room_items == old(self).dynamic_data.room_items,
            final(self).dynamic_data.next_npc_id == old(self).dynamic_data.next_npc_id,
            final(self).static_data == old(self).static_data,
    {
        let ghost ps0 = self.dynamic_data.players@;
        let mut i: usize = 0;
        while i < self.dynamic_data.players.len()
            invariant
                i <= self.dynamic_data.players.len(),
                self.dynamic_data.players@ == ps0,
                forall|j: int| 0 <= j < i ==> ps0[j].0 != player_id,
            ensures
                i <= self.dynamic_data.players.len(),
                self.dynamic_data.players@ == ps0,
                forall|j: int| 0 <= j < i ==> ps0[j].0 != player_id,
                i < self.dynamic_data.players.len() ==> ps0[i as int].0 == player_id,
            decreases self.dynamic_data.players.len() - i,
        {
            if self.dynamic_data.players[i].0 == player_id {
                break;
            }
            i = i + 1;
        }
        if i < self.dynamic_data.players.len() {
            self.dynamic_data.players.remove(i);
            proof {
                let ps1 = self.dynamic_data.players@;
                assert(ps1 =~= ps0.remove(i as int));
                assert forall|a: int, b: int| 0 <= a < b < ps1.len() implies ps1[a].0 != ps1[b].0 by {
                    let a0 = if a < i { a } else { a + 1 };
                    let b0 = if b < i { b } else { b + 1 };
                    assert(ps1[a] == ps0[a0] && ps1[b] == ps0[b0]);
                }
                assert forall|j: int| 0 <= j < ps1.len() implies ps1[j].0 != player_id by {
                    let j0 = if j < i { j } else { j + 1 };
                    assert(ps1[j] == ps0[j0]);
                    assert(ps0[i as int].0 == player_id);
                }
                lemma_loc_of_absent(ps1, player_id);
                assert forall|o: u64| o != player_id implies loc_of(ps1, o) == loc_of(ps0, o) by {
                    if exists|j: int| 0 <= j < ps0.len() && ps0[j].0 == o {
                        let j = choose|j: int| 0 <= j < ps0.len() && ps0[j].0 == o;
                        lemma_loc_of_entry(ps0, o, j);
                        let j1 = if j < i { j } else { j - 1 };
                        assert(j != i);
                        assert(ps1[j1] == ps0[j]);
                        lemma_loc_of_entry(ps1, o, j1);
                    } else {
                        lemma_loc_of_absent(ps0, o);
                        assert forall|j: int| 0 <= j < ps1.len() implies ps1[j].0 != o by {
                            let j0 = if j < i { j } else { j + 1 };
                            assert(ps1[j] == ps0[j0]);
                        }
                        lemma_loc_of_absent(ps1, o);
                    }
                }
            }
        } else {
            proof { lemma_loc_of_absent(ps0, player_id); }
        }
    }

    /// The names of the logged-in players in room `room_id`, other than `exclude_player_id`.
    pub fn get_players_in_room(&self, room_id: &str, exclude_player_id: u64) -> (r: Vec<String>)
        ensures
            views_of(r@) == names_in_room(self.dynamic_data.players@, room_id@, exclude_player_id),
    {
        let ps = &self.dynamic_data.players;
        let mut out: Vec<String> = Vec::new();
        let mut i: usize = 0;
        while i < ps.len()
            invariant
                i <= ps.len(),
                views_of(out@) == names_in_room(ps@.take(i as int), room_id@, exclude_player_id),
            decreases ps.len() - i,
        {
            proof { assert(ps@.take(i + 1).drop_last() =~= ps@.take(i as int)); }
            let (id, loc) = (&ps[i].0, &ps[i].1);
            if *id != exclude_player_id && same_text(loc.room_id.as_str(), room_id) {
                match &loc.user_name {
                    Some(n) => {
                        out.push(n.clone());
                    },
                    None => {},
                }
            }
            proof {
                assert(ps@.take(i + 1).last() == ps@[i as int]);
                assert(views_of(out@) =~= names_in_room(ps@.take(i + 1), room_id@, exclude_player_id));
            }
            i = i + 1;
        }
        proof { assert(ps@.take(i as int) =~= ps@); }
        out
    }

    /// Sets the shown name of player `player_id`, if the player has a location.
    pub fn update_player_name(&mut self, player_id: u64, user_name: String)
        requires
            old(self).wf(),
        ensures
            final(self).wf(),
            loc_index(old(self).dynamic_data.players@, player_id) < 0 ==> *final(self) == *old(self),
            loc_index(old(self).dynamic_data.players@, player_id) >= 0 ==> final(self).dynamic_data.players@
                == old(self).dynamic_data.players@.update(
                    loc_index(old(self).dynamic_data.players@, player_id),
                    (player_id, PlayerLocation {
                        room_id: loc_of(old(self).dynamic_data.players@, player_id)->0.room_id,
                        user_name: Some(user_name),
                    }),
                ),
            final(self).dynamic_data.npcs == old(self).dynamic_data.npcs,
            final(self).dynamic_data.room_items == old(self).dynamic_data.room_items,
            final(self).dynamic_data.next_npc_id == old(self).dynamic_data.next_npc_id,
            final(self).static_data == old(self).static_data,
    {
        let ghost ps0 = self.dynamic_data.players@;
        proof { lemma_loc_index(ps0, player_id); }
        let mut i: usize = 0;
        while i < self.dynamic_data.players.len()
            invariant
                i <= self.dynamic_data.players.len(),
                self.dynamic_data.players@ == ps0,
                *self == *old(self),
                old(self).wf(),
                forall|j: int| 0 <= j < i ==> ps0[j].0 != player_id,
            decreases self.dynamic_data.players.len() - i,
        {
            if self.dynamic_data.players[i].0 == player_id {
                proof { lemma_loc_index_at(ps0, player_id, i as int); }
                let room = self.dynamic_data.players[i].1.room_id.clone();
                self.dynamic_data.players.set(i, (player_id, PlayerLocation { room_id: room, user_name: Some(user_name) }));
                proof {
                    let ps1 = self.dynamic_data.players@;
                    assert forall|a: int, b: int| 0 <= a < b < ps1.len() implies ps1[a].0 != ps1[b].0 by {
                        assert(ps1[a].0 == ps0[a].0 && ps1[b].0 == ps0[b].0);
                    }
                }
                return;
            }
            i = i + 1;
        }
    }

    /// The room player `player_id` stands in.
    pub fn get_player_room_id(&self, player_id: u64) -> (r: Option<String>)
        ensures
            r is Some <==> loc_of(self.dynamic_data.players@, player_id) is Some,
            r is Some ==> r->0@ == loc_of(self.dynamic_data.players@, player_id)->0.room_id@,
    {
        let ps = &self.dynamic_data.players;
        proof { lemma_loc_index(ps@, player_id); }
        let mut i: usize = 0;
        while i < ps.len()
            invariant
                i <= ps.len(),
                ps@ == self.dynamic_data.players@,
                forall|j: int| 0 <= j < i ==> ps@[j].0 != player_id,
            decreases ps.len() - i,
        {
            if ps[i].0 == player_id {
                proof { lemma_loc_index_at(ps@, player_id, i as int); }
                let room = ps[i].1.room_id.clone();
                assert(room@ == ps@[i as int].1.room_id@);
                assert(loc_of(ps@, player_id) == Some(ps@[i as int].1));
                return Some(room);
            }
            i = i + 1;
        }
        proof {
            if loc_index(ps@, player_id) >= 0 {
                assert(ps@[loc_index(ps@, player_id)].0 == player_id);
            }
        }
        None
    }

    /// Copies of the NPCs standing in room `room_id`.
    pub fn get_npcs_in_room(&self, room_id: &str) -> (r: Vec<Npc>)
        ensures
            r@ == npcs_in(self.dynamic_data.npcs@, room_id@),
    {
        let ns = &self.dynamic_data.npcs;
        let mut out: Vec<Npc> = Vec::new();
        let mut i: usize = 0;
        while i < ns.len()
            invariant
                i <= ns.len(),
                out@ == npcs_in(ns@.take(i as int), room_id@),
            decreases ns.len() - i,
        {
            proof {
                assert(ns@.take(i + 1).drop_last() =~= ns@.take(i as int));
                assert(ns@.take(i + 1).last() == ns@[i as int]);
            }
            if same_text(ns[i].current_room.as_str(), room_id) {
                out.push(ns[i].duplicate());
            }
            i = i + 1;
        }
        proof { assert(ns@.take(i as int) =~= ns@); }
        out
    }

    /// The items lying in room `room_id`.
    pub fn get_items_in_room(&self, room_id: &str) -> (r: Vec<u32>)
        ensures
            r@ == items_in(self.dynamic_data.room_items, room_id@),
    {
        match self.dynamic_data.room_items.get(room_id) {
            Some(v) => copy_ids(v),
            None => Vec::new(),
        }
    }

    /// Lays item `item_id` in room `room_id`; other rooms keep their items.
    pub fn add_item_to_room(&mut self, room_id: &str, item_id: u32)
        requires
            old(self).wf(),
        ensures
            final(self).wf(),
            items_in(final(self).dynamic_data.room_items, room_id@) == items_in(old(self).dynamic_data.room_items, room_id@).push(item_id),
            forall|k: Seq<char>| k != room_id@ ==> items_in(final(self).dynamic_data.room_items, k) == items_in(old(self).dynamic_data.room_items, k),
            final(self).dynamic_data.players == old(self).dynamic_data.players,
            final(self).dynamic_data.npcs == old(self).dynamic_data.npcs,
            final(self).dynamic_data.next_npc_id == old(self).dynamic_data.next_npc_id,
            final(self).static_data == old(self).static_data,
    {
        let ghost e0 = self.dynamic_data.room_items.entries@;
        proof { lemma_find_index(e0, room_id@); }
        match self.dynamic_data.room_items.index_of(room_id) {
            Some(i) => {
                let (k, mut v) = self.dynamic_data.room_items.entries.remove(i);
                let ghost v0 = v@;
                v.push(item_id);
                self.dynamic_data.room_items.entries.insert(i, (k, v));
                proof {
                    let e1 = self.dynamic_data.room_items.entries@;
                    assert(e1 =~= e0.update(i as int, (e0[i as int].0, e1[i as int].1)));
                    assert forall|key: Seq<char>| key != room_id@ implies items_in(self.dynamic_data.room_items, key) == items_in(old(self).dynamic_data.room_items, key) by {
                        lemma_find_entry_update(e0, i as int, e1[i as int].1, key);
                    }
                    lemma_find_entry_update(e0, i as int, e1[i as int].1, room_id@);
                    assert(v0 == e0[i as int].1@);
                }
            },
            None => {
                let mut v: Vec<u32> = Vec::new();
                v.push(item_id);
                self.dynamic_data.room_items.insert(room_id.to_string(), v);
                proof {
                    let e1 = self.dynamic_data.room_items.entries@;
                    assert forall|key: Seq<char>| key != room_id@ implies items_in(self.dynamic_data.room_items, key) == items_in(old(self).dynamic_data.room_items, key) by {
                        lemma_find_entry_push(e0, e1.last(), key);
                    }
                    lemma_find_entry_push(e0, e1.last(), room_id@);
                    assert(e1.last().1@ =~= seq![item_id]);
                }
            },
        }
    }

    /// Takes one `item_id` out of room `room_id` (its first occurrence), and
    /// says whether there was one.
    pub fn remove_item_from_room(&mut self, room_id: &str, item_id: u32) -> (r: bool)
        requires
            old(self).wf(),
        ensures
            final(self).wf(),
            r == items_in(old(self).dynamic_data.room_items, room_id@).contains(item_id),
            r ==> items_in(final(self).dynamic_data.room_items, room_id@) == items_in(old(self).dynamic_data.room_items, room_id@).remove(
                first_position(items_in(old(self).dynamic_data.room_items, room_id@), item_id)),
            !r ==> *final(self) == *old(self),
            forall|k: Seq<char>| k != room_id@ ==> items_in(final(self).dynamic_data.room_items, k) == items_in(old(self).dynamic_data.room_items, k),
            final(self).dynamic_data.players == old(self).dynamic_data.players,
            final(self).dynamic_data.npcs == old(self).dynamic_data.npcs,
            final(self).dynamic_data.next_npc_id == old(self).dynamic_data.next_npc_id,
            final(self).static_data == old(self).static_data,
    {
        let ghost e0 = self.dynamic_data.room_items.entries@;
        proof { lemma_find_index(e0, room_id@); }
        match self.dynamic_data.room_items.index_of(room_id) {
            Some(i) => {
                let pos = position_of(&self.dynamic_data.room_items.entries[i].1, item_id);
                match pos {
                    Some(p) => {
                        let (k, mut v) = self.dynamic_data.room_items.entries.remove(i);
                        v.remove(p);
                        self.dynamic_data.room_items.entries.insert(i, (k, v));
                        proof {
                            let e1 = self.dynamic_data.room_items.entries@;
                            assert(e1 =~= e0.update(i as int, (e0[i as int].0, e1[i as int].1)));
                            assert forall|key: Seq<char>| key != room_id@ implies items_in(self.dynamic_data.room_items, key) == items_in(old(self).dynamic_data.room_items, key) by {
                                lemma_find_entry_update(e0, i as int, e1[i as int].1, key);
                            }
                            lemma_find_entry_update(e0, i as int, e1[i as int].1, room_id@);
                        }
                        true
                    },
                    None => false,
                }
            },
            None => false,
        }
    }
    /// The number of NPCs standing in room `room_id`.
    pub fn count_npcs_in(&self, room_id: &str) -> (r: usize)
        ensures
            r == npc_count_in(self.dynamic_data.npcs@, room_id@),
    {
        let ns = &self.dynamic_data.npcs;
        let mut c: usize = 0;
        let mut i: usize = 0;
        while i < ns.len()
            invariant
                i <= ns.len(),
                ns@ == self.dynamic_data.npcs@,
                c == npc_count_in(ns@.take(i as int), room_id@),
                c <= i,
            decreases ns.len() - i,
        {
            proof {
                assert(ns@.take(i + 1).drop_last() =~= ns@.take(i as int));
                assert(ns@.take(i + 1).last() == ns@[i as int]);
            }
            if same_text(ns[i].current_room.as_str(), room_id) {
                c = c + 1;
            }
            i = i + 1;
        }
        proof { assert(ns@.take(i as int) =~= ns@); }
        c
    }

    /// A respawn pass with the prototypes picked for each room given: every
    /// room that lists prototypes and holds no NPC gets one NPC of its pick
    /// (see `respawn_slots`), numbered on from `next_npc_id`.
    pub fn respawn_monsters_with(&mut self, picks: &Vec<u32>)
        requires
            old(self).wf(),
            picks@.len() >= old(self).static_data.rooms.entries@.len(),
            old(self).dynamic_data.next_npc_id + empty_rooms(old(self).static_data.rooms.entries@, old(self).dynamic_data.npcs@) <= u64::MAX,
        ensures
            final(self).wf(),
            spawned_after(
                final(self).dynamic_data.npcs@,
                old(self).dynamic_data.npcs@,
                respawn_slots(old(self).static_data.rooms.entries@, old(self).dynamic_data.npcs@, old(self).static_data.npc_prototypes@, picks@),
                old(self).static_data.npc_prototypes@,
                old(self).dynamic_data.next_npc_id,
            ),
            final(self).dynamic_data.next_npc_id == old(self).dynamic_data.next_npc_id
                + respawn_slots(old(self).static_data.rooms.entries@, old(self).dynamic_data.npcs@, old(self).static_data.npc_prototypes@, picks@).len(),
            final(self).dynamic_data.players == old(self).dynamic_data.players,
            final(self).dynamic_data.room_items == old(self).dynamic_data.room_items,
            final(self).static_data == old(self).static_data,
    {
        let ghost rooms = self.static_data.rooms.entries@;
        let ghost ns0 = self.dynamic_data.npcs@;
        let ghost protos = self.static_data.npc_prototypes@;
        let ghost first = self.dynamic_data.next_npc_id;
        let mut fresh: Vec<Npc> = Vec::new();
        let mut k: usize = 0;
        proof { assert(rooms.take(0) =~= Seq::<(String, Room)>::empty()); }
        while k < self.static_data.rooms.entries.len()
            invariant
                k <= rooms.len(),
                rooms == self.static_data.rooms.entries@,
                protos == self.static_data.npc_prototypes@,
                ns0 == self.dynamic_data.npcs@,
                picks@.len() >= rooms.len(),
                first + empty_rooms(rooms, ns0) <= u64::MAX,
                self.dynamic_data.next_npc_id == first + fresh@.len(),
                spawned_after(ns0 + fresh@, ns0, respawn_slots(rooms.take(k as int), ns0, protos, picks@), protos, first),
                fresh@.len() <= k,
                self.static_data == old(self).static_data,
                self.dynamic_data.players == old(self).dynamic_data.players,
                self.dynamic_data.npcs == old(self).dynamic_data.npcs,
                self.dynamic_data.room_items == old(self).dynamic_data.room_items,
            decreases rooms.len() - k,
        {
            proof { assert(rooms.take(k + 1).drop_last() =~= rooms.take(k as int)); }
            let ghost fresh0 = fresh@;
            let has_npcs = self.static_data.rooms.entries[k].1.npcs.len() > 0;
            if has_npcs && self.count_npcs_in(self.static_data.rooms.entries[k].1.id.as_str()) == 0 {
                let pid = picks[k];
                match self.static_data.npc_prototype(pid) {
                    Some(proto) => {
                        proof {
                            assert(rooms.take(k + 1)[k as int] == rooms[k as int]);
                            assert(respawn_slots(rooms.take(k + 1), ns0, protos, picks@)
                                == respawn_slots(rooms.take(k as int), ns0, protos, picks@).push((pid, rooms[k as int].1.id@)));
                            lemma_slots_within(rooms.take(k + 1), ns0, protos, picks@);
                            lemma_empty_rooms_prefix(rooms, ns0, k + 1);
                        }
                        let npc = Npc::from_prototype(self.dynamic_data.next_npc_id, pid, proto, self.static_data.rooms.entries[k].1.id.clone());
                        fresh.push(npc);
                        self.dynamic_data.next_npc_id = self.dynamic_data.next_npc_id + 1;
                    },
                    None => {},
                }
            }
            proof {
                let slots = respawn_slots(rooms.take(k + 1), ns0, protos, picks@);
                assert(rooms.take(k + 1)[k as int] == rooms[k as int]);
                assert(fresh@.len() == slots.len());
                assert forall|j: int| 0 <= j < slots.len() implies is_fresh_npc(
                    #[trigger] (ns0 + fresh@)[ns0.len() + j], (first + j) as u64, slots[j].0, protos[slots[j].0], slots[j].1) by {
                    if j < fresh0.len() {
                        assert((ns0 + fresh@)[ns0.len() + j] == (ns0 + fresh0)[ns0.len() + j]);
                    }
                }
                assert forall|i: int| 0 <= i < ns0.len() implies (ns0 + fresh@)[i] == ns0[i] by {}
            }
            k = k + 1;
        }
        proof { assert(rooms.take(k as int) =~= rooms); }
        self.dynamic_data.npcs.append(&mut fresh);
        proof {
            let ns1 = self.dynamic_data.npcs@;
            let slots = respawn_slots(rooms, ns0, protos, picks@);
            assert(ns1 =~= ns0 + (ns1.skip(ns0.len() as int)));
            assert forall|a: int, b: int| 0 <= a < b < ns1.len() implies ns1[a].instance_id != ns1[b].instance_id by {
                if b >= ns0.len() {
                    assert(is_fresh_npc(ns1[ns0.len() + (b - ns0.len())], (first + (b - ns0.len())) as u64,
                        slots[b - ns0.len()].0, protos[slots[b - ns0.len()].0], slots[b - ns0.len()].1));
                    if a >= ns0.len() {
                        assert(is_fresh_npc(ns1[ns0.len() + (a - ns0.len())], (first + (a - ns0.len())) as u64,
                            slots[a - ns0.len()].0, protos[slots[a - ns0.len()].0], slots[a - ns0.len()].1));
                    }
                }
            }
            assert forall|a: int| 0 <= a < ns1.len() implies ns1[a].instance_id < self.dynamic_data.next_npc_id by {
                if a >= ns0.len() {
                    assert(is_fresh_npc(ns1[ns0.len() + (a - ns0.len())], (first + (a - ns0.len())) as u64,
                        slots[a - ns0.len()].0, protos[slots[a - ns0.len()].0], slots[a - ns0.len()].1));
                }
            }
        }
    }

    /// A respawn pass: each empty room that lists NPC prototypes gets one NPC
    /// of a prototype picked at random from its list.
    pub fn respawn_monsters(&mut self)
        requires
            old(self).wf(),
            old(self).dynamic_data.next_npc_id + empty_rooms(old(self).static_data.rooms.entries@, old(self).dynamic_data.npcs@) <= u64::MAX,
        ensures
            final(self).wf(),
            respawn_pass(*old(self), *final(self)),
    {
        let mut picks: Vec<u32> = Vec::new();
        let mut k: usize = 0;
        while k < self.static_data.rooms.entries.len()
            invariant
                k <= self.static_data.rooms.entries@.len(),
                picks@.len() == k,
                forall|j: int| 0 <= j < k && self.static_data.rooms.entries@[j].1.npcs@.len() > 0
                    ==> self.static_data.rooms.entries@[j].1.npcs@.contains(#[trigger] picks@[j]),
            decreases self.static_data.rooms.entries@.len() - k,
        {
            let pick: u32 = match choose_from(self.static_data.rooms.entries[k].1.npcs.as_slice()) {
                Some(x) => x,
                None => 0,
            };
            picks.push(pick);
            k = k + 1;
        }
        self.respawn_monsters_with(&picks);
        assert(picks@.len() == old(self).static_data.rooms.entries@.len());
    }

    /// The periodic world update: a respawn pass.
    pub fn tick(&mut self)
        requires
            old(self).wf(),
            old(self).dynamic_data.next_npc_id + empty_rooms(old(self).static_data.rooms.entries@, old(self).dynamic_data.npcs@) <= u64::MAX,
        ensures
            final(self).wf(),
            respawn_pass(*old(self), *final(self)),
    {
        self.respawn_monsters();
    }
}

/// The first position of `x` in `s` (meaningful when `s` holds `x`).
pub open spec fn first_position(s: Seq<u32>, x: u32) -> int
    decreases s.len(),
{
    if s.len() == 0 {
        0
    } else if s[0] == x {
        0
    } else {
        1 + first_position(s.drop_first(), x)
    }
}

proof fn lemma_first_position(s: Seq<u32>, x: u32, i: int)
    requires
        0 <= i < s.len(),
        s[i] == x,
        forall|j: int| 0 <= j < i ==> s[j] != x,
    ensures
        first_position(s, x) == i,
    decreases i,
{
    if i > 0 {
        lemma_first_position(s.drop_first(), x, i - 1);
    }
}

/// The position of the first `x` in `v`.
fn position_of(v: &Vec<u32>, x: u32) -> (r: Option<usize>)
    ensures
        r is None <==> !v@.contains(x),
        r matches Some(p) ==> p < v@.len() && p as int == first_position(v@, x),
{
    let mut i: usize = 0;
    while i < v.len()
        invariant
            i <= v.len(),
            forall|j: int| 0 <= j < i ==> v@[j] != x,
        decreases v.len() - i,
    {
        if v[i] == x {
            proof { lemma_first_position(v@, x, i as int); }
            return Some(i);
        }
        i = i + 1;
    }
    None
}

/// A copy of a list of ids.
fn copy_ids(v: &Vec<u32>) -> (r: Vec<u32>)
    ensures
        r@ == v@,
{
    let mut out: Vec<u32> = Vec::new();
    let mut i: usize = 0;
    while i < v.len()
        invariant
            i <= v.len(),
            out@ == v@.take(i as int),
        decreases v.len() - i,
    {
        out.push(v[i]);
        i = i + 1;
        proof { assert(out@ =~= v@.take(i as int)); }
    }
    proof { assert(v@.take(i as int) =~= v@); }
    out
}

/// The spawns of one room's NPC list: each listed prototype that exists, in
/// order, with the room's id.
pub open spec fn room_slots(ids: Seq<u32>, room: Seq<char>, protos: Map<u32, NpcPrototype>) -> Seq<(u32, Seq<char>)>
    decreases ids.len(),
{
    if ids.len() == 0 {
        seq![]
    } else {
        let prev = room_slots(ids.drop_last(), room, protos);
        if protos.contains_key(ids.last()) { prev.push((ids.last(), room)) } else { prev }
    }
}

/// The spawns when the world starts: every room's list in turn.
pub open spec fn spawn_slots(rooms: Seq<(String, Room)>, protos: Map<u32, NpcPrototype>) -> Seq<(u32, Seq<char>)>
    decreases rooms.len(),
{
    if rooms.len() == 0 {
        seq![]
    } else {
        spawn_slots(rooms.drop_last(), protos) + room_slots(rooms.last().1.npcs@, rooms.last().1.id@, protos)
    }
}

/// The first monster template with the given name.
pub open spec fn monster_named(ms: Seq<(String, MonsterTemplate)>, name: Seq<char>) -> Option<MonsterTemplate>
    decreases ms.len(),
{
    if ms.len() == 0 {
        None
    } else if ms[0].1.name@ == name {
        Some(ms[0].1)
    } else {
        monster_named(ms.drop_first(), name)
    }
}

/// The health, attack and defense an NPC starts with: its monster
/// template's, or 50, 10 and 2 without one.
pub open spec fn starting_stats(ms: Seq<(String, MonsterTemplate)>, name: Seq<char>) -> (int, int, int) {
    match monster_named(ms, name) {
        Some(m) => (u32_as_i32(m.max_hp), u32_as_i32(m.attack), u32_as_i32(m.defense)),
        None => (50, 10, 2),
    }
}

/// Whether `n` is the NPC spawned at the start as instance `id` of
/// prototype `pid` in room `room`, with its starting stats.
pub open spec fn is_spawned_npc(n: Npc, id: u64, pid: u32, p: NpcPrototype, room: Seq<char>, ms: Seq<(String, MonsterTemplate)>) -> bool {
    let st = starting_stats(ms, p.name@);
    &&& is_fresh_npc(Npc { hp: 0, max_hp: 0, attack: 0, defense: 0, ..n }, id, pid, p, room)
    &&& n.hp == st.0 && n.max_hp == st.0 && n.attack == st.1 && n.defense == st.2
}

/// The starting health, attack and defense for an NPC named `name`.
fn stats_for(monsters: &Registry<MonsterTemplate>, name: &str) -> (r: (i32, i32, i32))
    ensures
        r.0 == starting_stats(monsters.entries@, name@).0,
        r.1 == starting_stats(monsters.entries@, name@).1,
        r.2 == starting_stats(monsters.entries@, name@).2,
{
    let ms = &monsters.entries;
    let mut i: usize = 0;
    proof { assert(ms@.skip(0) =~= ms@); }
    while i < ms.len()
        invariant
            i <= ms.len(),
            ms@ == monsters.entries@,
            monster_named(ms@, name@) == monster_named(ms@.skip(i as int), name@),
        decreases ms.len() - i,
    {
        proof {
            assert(ms@.skip(i as int).drop_first() =~= ms@.skip(i + 1));
            assert(ms@.skip(i as int)[0] == ms@[i as int]);
        }
        if same_text(ms[i].1.name.as_str(), name) {
            let m = &ms[i].1;
            return (u32_to_i32(m.max_hp), u32_to_i32(m.attack), u32_to_i32(m.defense));
        }
        i = i + 1;
    }
    (50, 10, 2)
}

impl WorldState {
    /// The world at start: every room's items where the room lists them, and
    /// one NPC for each prototype each room lists (when the prototype
    /// exists), numbered from 0, with the stats of the monster template of
    /// its name (or 50 health, 10 attack, 2 defense).
    pub fn new(static_data: StaticWorldData) -> (w: WorldState)
        ensures
            w.wf(),
            w.static_data == static_data,
            w.dynamic_data.players@.len() == 0,
            w.dynamic_data.room_items.entries@.len() == static_data.rooms.entries@.len(),
            forall|i: int| 0 <= i < static_data.rooms.entries@.len() ==> (#[trigger] w.dynamic_data.room_items.entries@[i]).0@ == static_data.rooms.entries@[i].0@
                && w.dynamic_data.room_items.entries@[i].1@ == static_data.rooms.entries@[i].1.items@,
            w.dynamic_data.npcs@.len() == spawn_slots(static_data.rooms.entries@, static_data.npc_prototypes@).len(),
            w.dynamic_data.next_npc_id == w.dynamic_data.npcs@.len(),
            forall|k: int| 0 <= k < w.dynamic_data.npcs@.len() ==> is_spawned_npc(
                #[trigger] w.dynamic_data.npcs@[k], k as u64,
                spawn_slots(static_data.rooms.entries@, static_data.npc_prototypes@)[k].0,
                static_data.npc_prototypes@[spawn_slots(static_data.rooms.entries@, static_data.npc_prototypes@)[k].0],
                spawn_slots(static_data.rooms.entries@, static_data.npc_prototypes@)[k].1,
                static_data.monsters.entries@,
            ),
    {
        let ghost rooms = static_data.rooms.entries@;
        let ghost protos = static_data.npc_prototypes@;
        let ghost ms = static_data.monsters.entries@;
        let mut items: Vec<(String, Vec<u32>)> = Vec::new();
        let mut npcs: Vec<Npc> = Vec::new();
        let mut r: usize = 0;
        proof { assert(rooms.take(0) =~= Seq::<(String, Room)>::empty()); }
        while r < static_data.rooms.entries.len()
            invariant
                r <= rooms.len(),
                rooms == static_data.rooms.entries@,
                protos == static_data.npc_prototypes@,
                ms == static_data.monsters.entries@,
                items@.len() == r,
                forall|i: int| 0 <= i < r ==> (#[trigger] items@[i]).0@ == rooms[i].0@ && items@[i].1@ == rooms[i].1.items@,
                npcs@.len() == spawn_slots(rooms.take(r as int), protos).len(),
                forall|k: int| 0 <= k < npcs@.len() ==> is_spawned_npc(#[trigger] npcs@[k], k as u64,
                    spawn_slots(rooms.take(r as int), protos)[k].0, protos[spawn_slots(rooms.take(r as int), protos)[k].0],
                    spawn_slots(rooms.take(r as int), protos)[k].1, ms),
            decreases rooms.len() - r,
        {
            let room = &static_data.rooms.entries[r].1;
            items.push((static_data.rooms.entries[r].0.clone(), copy_ids(&room.items)));
            let ghost before = spawn_slots(rooms.take(r as int), protos);
            let ghost n0 = npcs@.len();
            let mut j: usize = 0;
            proof { assert(room.npcs@.take(0) =~= Seq::<u32>::empty()); }
            while j < room.npcs.len()
                invariant
                    j <= room.npcs@.len(),
                    protos == static_data.npc_prototypes@,
                    ms == static_data.monsters.entries@,
                    npcs@.len() == before.len() + room_slots(room.npcs@.take(j as int), room.id@, protos).len(),
                    forall|k: int| 0 <= k < npcs@.len() ==> is_spawned_npc(#[trigger] npcs@[k], k as u64,
                        (before + room_slots(room.npcs@.take(j as int), room.id@, protos))[k].0,
                        protos[(before + room_slots(room.npcs@.take(j as int), room.id@, protos))[k].0],
                        (before + room_slots(room.npcs@.take(j as int), room.id@, protos))[k].1, ms),
                decreases room.npcs@.len() - j,
            {
                let pid = room.npcs[j];
                let ghost slots0 = before + room_slots(room.npcs@.take(j as int), room.id@, protos);
                proof { assert(room.npcs@.take(j + 1).drop_last() =~= room.npcs@.take(j as int)); }
                match static_data.npc_prototype(pid) {
                    Some(proto) => {
                        let id: u64 = npcs.len() as u64;
                        let mut npc = Npc::from_prototype(id, pid, proto, room.id.clone());
                        let st = stats_for(&static_data.monsters, npc.name.as_str());
                        npc.init_combat_stats(st.0, st.1, st.2);
                        npcs.push(npc);
                        proof {
                            let slots1 = before + room_slots(room.npcs@.take(j + 1), room.id@, protos);
                            assert(room.npcs@.take(j + 1).last() == pid);
                            assert(slots1 =~= slots0.push((pid, room.id@)));
                            assert forall|k: int| 0 <= k < npcs@.len() implies is_spawned_npc(#[trigger] npcs@[k], k as u64,
                                slots1[k].0, protos[slots1[k].0], slots1[k].1, ms) by {
                            }
                        }
                    },
                    None => {
                        proof {
                            assert(room.npcs@.take(j + 1).last() == pid);
                            assert(before + room_slots(room.npcs@.take(j + 1), room.id@, protos) =~= slots0);
                        }
                    },
                }
                j = j + 1;
            }
            proof {
                assert(room.npcs@.take(j as int) =~= room.npcs@);
                assert(rooms.take(r + 1).drop_last() =~= rooms.take(r as int));
                assert(rooms.take(r + 1).last() == rooms[r as int]);
            }
            r = r + 1;
        }
        proof { assert(rooms.take(r as int) =~= rooms); }
        let next: u64 = npcs.len() as u64;
        let w = WorldState {
            static_data,
            dynamic_data: DynamicData {
                players: Vec::new(),
                npcs,
                room_items: Registry { entries: items },
                next_npc_id: next,
            },
        };
        proof {
            let ns = w.dynamic_data.npcs@;
            let slots = spawn_slots(rooms, protos);
            assert forall|a: int, b: int| 0 <= a < b < ns.len() implies ns[a].instance_id != ns[b].instance_id by {
                assert(is_spawned_npc(ns[a], a as u64, slots[a].0, protos[slots[a].0], slots[a].1, ms));
                assert(is_spawned_npc(ns[b], b as u64, slots[b].0, protos[slots[b].0], slots[b].1, ms));
            }
            assert forall|a: int| 0 <= a < ns.len() implies ns[a].instance_id < w.dynamic_data.next_npc_id by {
                assert(is_spawned_npc(ns[a], a as u64, slots[a].0, protos[slots[a].0], slots[a].1, ms));
            }
        }
        w
    }
}


/// The position of NPC instance `id`, or -1.
pub open spec fn npc_pos(ns: Seq<Npc>, id: u64) -> int
    decreases ns.len(),
{
    if ns.len() == 0 {
        -1
    } else if ns[0].instance_id == id {
        0
    } else {
        let r = npc_pos(ns.drop_first(), id);
        if r < 0 { -1 } else { r + 1 }
    }
}

pub proof fn lemma_npc_pos(ns: Seq<Npc>, id: u64)
    ensures
        -1 <= npc_pos(ns, id) < ns.len(),
        npc_pos(ns, id) >= 0 ==> ns[npc_pos(ns, id)].instance_id == id,
        npc_pos(ns, id) >= 0 ==> forall|j: int| 0 <= j < npc_pos(ns, id) ==> ns[j].instance_id != id,
        npc_pos(ns, id) < 0 ==> forall|j: int| 0 <= j < ns.len() ==> ns[j].instance_id != id,
    decreases ns.len(),
{
    if ns.len() > 0 {
        lemma_npc_pos(ns.drop_first(), id);
        if ns[0].instance_id != id {
            assert forall|j: int| 1 <= j < ns.len() implies ns[j] == ns.drop_first()[j - 1] by {}
        }
    }
}

pub proof fn lemma_npc_pos_at(ns: Seq<Npc>, id: u64, i: int)
    requires
        0 <= i < ns.len(),
        ns[i].instance_id == id,
        forall|j: int| 0 <= j < i ==> ns[j].instance_id != id,
    ensures
        npc_pos(ns, id) == i,
{
    lemma_npc_pos(ns, id);
    if npc_pos(ns, id) < i {
        assert(ns[npc_pos(ns, id)].instance_id == id);
    }
}

impl WorldState {
    /// The position of NPC instance `id`.
    pub fn find_npc_instance(&self, id: u64) -> (r: Option<usize>)
        ensures
            r is None <==> npc_pos(self.dynamic_data.npcs@, id) < 0,
            r matches Some(i) ==> i as int == npc_pos(self.dynamic_data.npcs@, id) && i < self.dynamic_data.npcs@.len(),
    {
        proof { lemma_npc_pos(self.dynamic_data.npcs@, id); }
        let mut i: usize = 0;
        while i < self.dynamic_data.npcs.len()
            invariant
                i <= self.dynamic_data.npcs.len(),
                forall|j: int| 0 <= j < i ==> self.dynamic_data.npcs@[j].instance_id != id,
            decreases self.dynamic_data.npcs.len() - i,
        {
            if self.dynamic_data.npcs[i].instance_id == id {
                proof { lemma_npc_pos_at(self.dynamic_data.npcs@, id, i as int); }
                return Some(i);
            }
            i = i + 1;
        }
        None
    }

    /// Puts NPC instance `id` (if it is there) into a fight.
    pub fn set_npc_combat_state(&mut self, id: u64, cs: Option<crate::combat::CombatState>)
        requires
            old(self).wf(),
        ensures
            final(self).wf(),
            npc_pos(old(self).dynamic_data.npcs@, id) < 0 ==> *final(self) == *old(self),
            npc_pos(old(self).dynamic_data.npcs@, id) >= 0 ==> final(self).dynamic_data.npcs@ == old(self).dynamic_data.npcs@.update(
                npc_pos(old(self).dynamic_data.npcs@, id),
                Npc { combat_state: cs, ..old(self).dynamic_data.npcs@[npc_pos(old(self).dynamic_data.npcs@, id)] }),
            final(self).dynamic_data.players == old(self).dynamic_data.players,
            final(self).dynamic_data.room_items == old(self).dynamic_data.room_items,
            final(self).dynamic_data.next_npc_id == old(self).dynamic_data.next_npc_id,
            final(self).static_data == old(self).static_data,
    {
        match self.find_npc_instance(id) {
            Some(i) => {
                let ghost ns0 = self.dynamic_data.npcs@;
                self.dynamic_data.npcs[i].combat_state = cs;
                proof {
                    let ns1 = self.dynamic_data.npcs@;
                    assert(ns1 =~= ns0.update(i as int, Npc { combat_state: cs, ..ns0[i as int] }));
                    assert forall|a: int, b: int| 0 <= a < b < ns1.len() implies ns1[a].instance_id != ns1[b].instance_id by {
                        assert(ns1[a].instance_id == ns0[a].instance_id && ns1[b].instance_id == ns0[b].instance_id);
                    }
                    assert forall|a: int| 0 <= a < ns1.len() implies ns1[a].instance_id < self.dynamic_data.next_npc_id by {
                        assert(ns1[a].instance_id == ns0[a].instance_id);
                    }
                }
            },
            None => {},
        }
    }

    /// Takes NPC instance `id` out of the world (if it is there).
    pub fn remove_npc(&mut self, id: u64)
        requires
            old(self).wf(),
        ensures
            final(self).wf(),
            npc_pos(old(self).dynamic_data.npcs@, id) < 0 ==> *final(self) == *old(self),
            npc_pos(old(self).dynamic_data.npcs@, id) >= 0 ==> final(self).dynamic_data.npcs@
                == old(self).dynamic_data.npcs@.remove(npc_pos(old(self).dynamic_data.npcs@, id)),
            final(self).dynamic_data.players == old(self).dynamic_data.players,
            final(self).dynamic_data.room_items == old(self).dynamic_data.room_items,
            final(self).dynamic_data.next_npc_id == old(self).dynamic_data.next_npc_id,
            final(self).static_data == old(self).static_data,
    {
        match self.find_npc_instance(id) {
            Some(i) => {
                let ghost ns0 = self.dynamic_data.npcs@;
                self.dynamic_data.npcs.remove(i);
                proof {
                    let ns1 = self.dynamic_data.npcs@;
                    assert forall|a: int, b: int| 0 <= a < b < ns1.len() implies ns1[a].instance_id != ns1[b].instance_id by {
                        let a0 = if a < i { a } else { a + 1 };
                        let b0 = if b < i { b } else { b + 1 };
                        assert(ns1[a] == ns0[a0] && ns1[b] == ns0[b0]);
                    }
                    assert forall|a: int| 0 <= a < ns1.len() implies ns1[a].instance_id < self.dynamic_data.next_npc_id by {
                        let a0 = if a < i { a } else { a + 1 };
                        assert(ns1[a] == ns0[a0]);
                    }
                }
            },
            None => {},
        }
    }

    /// Lowers the health of NPC instance `id` (if it is there) by `damage`;
    /// says whether it is there and now at 0 or below.
    pub fn damage_npc(&mut self, id: u64, damage: i32) -> (dead: bool)
        requires
            old(self).wf(),
            npc_pos(old(self).dynamic_data.npcs@, id) >= 0 ==> crate::combat::fits_i32(
                old(self).dynamic_data.npcs@[npc_pos(old(self).dynamic_data.npcs@, id)].hp - damage),
        ensures
            final(self).wf(),
            npc_pos(old(self).dynamic_data.npcs@, id) < 0 ==> *final(self) == *old(self) && !dead,
            npc_pos(old(self).dynamic_data.npcs@, id) >= 0 ==> ({
                let i = npc_pos(old(self).dynamic_data.npcs@, id);
                let n = old(self).dynamic_data.npcs@[i];
                &&& final(self).dynamic_data.npcs@ == old(self).dynamic_data.npcs@.update(i, Npc { hp: (n.hp - damage) as i32, ..n })
                &&& dead == (n.hp - damage <= 0)
            }),
            final(self).dynamic_data.players == old(self).dynamic_data.players,
            final(self).dynamic_data.room_items == old(self).dynamic_data.room_items,
            final(self).dynamic_data.next_npc_id == old(self).dynamic_data.next_npc_id,
            final(self).static_data == old(self).static_data,
    {
        match self.find_npc_instance(id) {
            Some(i) => {
                let ghost ns0 = self.dynamic_data.npcs@;
                let hp = self.dynamic_data.npcs[i].hp - damage;
                self.dynamic_data.npcs[i].hp = hp;
                proof {
                    let ns1 = self.dynamic_data.npcs@;
                    assert(ns1 =~= ns0.update(i as int, Npc { hp: hp, ..ns0[i as int] }));
                    assert forall|a: int, b: int| 0 <= a < b < ns1.len() implies ns1[a].instance_id != ns1[b].instance_id by {
                        assert(ns1[a].instance_id == ns0[a].instance_id && ns1[b].instance_id == ns0[b].instance_id);
                    }
                    assert forall|a: int| 0 <= a < ns1.len() implies ns1[a].instance_id < self.dynamic_data.next_npc_id by {
                        assert(ns1[a].instance_id == ns0[a].instance_id);
                    }
                }
                hp <= 0
            },
            None => false,
        }
    }
}


/// Each NPC in a room is one of the world's NPCs.
pub proof fn lemma_npcs_in_member(ns: Seq<Npc>, room: Seq<char>, k: int)
    requires
        0 <= k < npcs_in(ns, room).len(),
    ensures
        exists|j: int| 0 <= j < ns.len() && ns[j] == npcs_in(ns, room)[k],
    decreases ns.len(),
{
    let rest = npcs_in(ns.drop_last(), room);
    if k < rest.len() {
        lemma_npcs_in_member(ns.drop_last(), room, k);
        let j = choose|j: int| 0 <= j < ns.drop_last().len() && ns.drop_last()[j] == rest[k];
        assert(ns[j] == npcs_in(ns, room)[k]);
    } else {
        assert(ns[ns.len() - 1] == npcs_in(ns, room)[k]);
    }
}

/// In a well-formed world, an NPC seen in a room sits at the position of its instance id.
pub proof fn lemma_seen_npc_pos(w: WorldState, room: Seq<char>, k: int)
    requires
        w.wf(),
        0 <= k < npcs_in(w.dynamic_data.npcs@, room).len(),
    ensures
        npc_pos(w.dynamic_data.npcs@, npcs_in(w.dynamic_data.npcs@, room)[k].instance_id) >= 0,
        w.dynamic_data.npcs@[npc_pos(w.dynamic_data.npcs@, npcs_in(w.dynamic_data.npcs@, room)[k].instance_id)]
            == npcs_in(w.dynamic_data.npcs@, room)[k],
{
    let ns = w.dynamic_data.npcs@;
    let n = npcs_in(ns, room)[k];
    lemma_npcs_in_member(ns, room, k);
    let j = choose|j: int| 0 <= j < ns.len() && ns[j] == n;
    assert forall|i: int| 0 <= i < j implies ns[i].instance_id != n.instance_id by {}
    lemma_npc_pos_at(ns, n.instance_id, j);
}
} // verus!
