//! The world of the map files: every map's rooms and NPCs, the NPC numbers
//! of each map moved up by 100 per map before it, checked for exits and
//! NPCs that lead nowhere.

use vstd::prelude::*;
use std::collections::HashMap;
use crate::world::map_config::{MapConfig, NpcConfig, RoomConfig, SpawnConfig};
use crate::world_model::{Registry, find_index, find_entry, lemma_find_index};

verus! {

broadcast use vstd::std_specs::hash::group_hash_axioms;

/// A room of the map world: its exits as in its map, and the numbers of the
/// NPCs it lists and spawns, moved up by its map's offset.
pub struct MapRoom {
    pub id: String,
    pub name: String,
    pub description: String,
    pub exits: Vec<(String, String)>,
    pub npcs: Vec<u64>,
}

/// An NPC of the map world under its moved-up number, in its starting room.
pub struct MapNpc {
    pub id: u64,
    pub name: String,
    pub description: String,
    pub room: String,
}

/// The rooms by id and the NPCs by number.
pub struct World {
    pub rooms: Registry<MapRoom>,
    pub npcs: HashMap<u64, MapNpc>,
}

/// The offset of the NPC numbers of the map at position `i`.
pub open spec fn map_offset(i: int) -> int {
    100 * i
}

/// Every room of the maps, in order, with its map's offset.
pub open spec fn placed_rooms(maps: Seq<MapConfig>) -> Seq<(int, RoomConfig)>
    decreases maps.len(),
{
    if maps.len() == 0 {
        seq![]
    } else {
        let off = map_offset(maps.len() - 1);
        placed_rooms(maps.drop_last()) + maps.last().rooms@.map_values(|rc: RoomConfig| (off, rc))
    }
}

/// Every NPC of the maps, in order, with its map's offset.
pub open spec fn placed_npcs(maps: Seq<MapConfig>) -> Seq<(int, NpcConfig)>
    decreases maps.len(),
{
    if maps.len() == 0 {
        seq![]
    } else {
        let off = map_offset(maps.len() - 1);
        placed_npcs(maps.drop_last()) + maps.last().npcs@.map_values(|nc: NpcConfig| (off, nc))
    }
}

/// The last placed room with id `id`: the one the world keeps.
pub open spec fn last_room(ps: Seq<(int, RoomConfig)>, id: Seq<char>) -> Option<(int, RoomConfig)>
    decreases ps.len(),
{
    if ps.len() == 0 {
        None
    } else if ps.last().1.id@ == id {
        Some(ps.last())
    } else {
        last_room(ps.drop_last(), id)
    }
}

/// The last placed NPC whose moved-up number is `n`: the one the world keeps.
pub open spec fn last_npc(ps: Seq<(int, NpcConfig)>, n: int) -> Option<(int, NpcConfig)>
    decreases ps.len(),
{
    if ps.len() == 0 {
        None
    } else if ps.last().1.id + ps.last().0 == n {
        Some(ps.last())
    } else {
        last_npc(ps.drop_last(), n)
    }
}

/// The NPC numbers a room lists and spawns, moved up by `off`.
pub open spec fn room_npc_ids(rc: RoomConfig, off: int) -> Seq<u64> {
    rc.npcs@.map_values(|x: u64| (x + off) as u64) + rc.spawns@.map_values(|s: SpawnConfig| (s.npc + off) as u64)
}

/// Whether `r` is room `rc` of a map with offset `off`.
pub open spec fn built_room(r: MapRoom, rc: RoomConfig, off: int) -> bool {
    &&& r.id == rc.id
    &&& r.name == rc.name
    &&& r.description == rc.description
    &&& r.exits == rc.exits
    &&& r.npcs@ == room_npc_ids(rc, off)
}

/// NPC `nc` of a map with offset `off`.
pub open spec fn built_npc(nc: NpcConfig, off: int) -> MapNpc {
    MapNpc { id: (nc.id + off) as u64, name: nc.name, description: nc.description, room: nc.starting_room }
}

/// Every NPC number, moved up, stays within `u64`, as does the offset of
/// one map past the last.
pub open spec fn numbers_fit(maps: Seq<MapConfig>) -> bool {
    let ps = placed_rooms(maps);
    let ns = placed_npcs(maps);
    &&& map_offset(maps.len() as int) <= u64::MAX
    &&& forall|p: int, x: int| 0 <= p < ps.len() && 0 <= x < ps[p].1.npcs@.len() ==> #[trigger] ps[p].1.npcs@[x] + ps[p].0 <= u64::MAX
    &&& forall|p: int, x: int| 0 <= p < ps.len() && 0 <= x < ps[p].1.spawns@.len() ==> #[trigger] ps[p].1.spawns@[x].npc + ps[p].0 <= u64::MAX
    &&& forall|p: int| 0 <= p < ns.len() ==> #[trigger] ns[p].1.id + ns[p].0 <= u64::MAX
}

/// Whether the room kept under `id` (if any) has every exit lead to a room
/// kept, and every NPC it lists or spawns among the NPCs kept.
pub open spec fn room_valid(ps: Seq<(int, RoomConfig)>, ns: Seq<(int, NpcConfig)>, id: Seq<char>) -> bool {
    last_room(ps, id) matches Some(pr) ==> {
        &&& forall|e: int| 0 <= e < pr.1.exits@.len() ==> last_room(ps, (#[trigger] pr.1.exits@[e]).1@) is Some
        &&& forall|x: int| 0 <= x < room_npc_ids(pr.1, pr.0).len() ==> last_npc(ns, #[trigger] room_npc_ids(pr.1, pr.0)[x] as int) is Some
    }
}

/// Whether every exit of every room kept leads to a room kept, and every
/// NPC it lists or spawns is an NPC kept.
pub open spec fn maps_valid(maps: Seq<MapConfig>) -> bool {
    forall|id: Seq<char>| #[trigger] room_valid(placed_rooms(maps), placed_npcs(maps), id)
}

/// The rooms of the table are those kept of the placed rooms.
pub open spec fn rooms_hold(rooms: Registry<MapRoom>, ps: Seq<(int, RoomConfig)>) -> bool {
    forall|id: Seq<char>| match #[trigger] last_room(ps, id) {
        None => rooms.lookup(id) is None,
        Some(pr) => rooms.lookup(id) matches Some(r) && built_room(r, pr.1, pr.0),
    }
}

/// The NPCs of the map are those kept of the placed NPCs.
pub open spec fn npcs_hold(npcs: Map<u64, MapNpc>, ns: Seq<(int, NpcConfig)>) -> bool {
    forall|n: u64| match #[trigger] last_npc(ns, n as int) {
        None => !npcs.contains_key(n),
        Some(pn) => npcs.contains_key(n) && npcs[n] == built_npc(pn.1, pn.0),
    }
}

/// The placed rooms and NPCs of one more map.
proof fn lemma_placed_step(all: Seq<MapConfig>, i: int)
    requires
        0 <= i < all.len(),
    ensures
        placed_rooms(all.take(i + 1)) == placed_rooms(all.take(i)) + all[i].rooms@.map_values(|rc: RoomConfig| (map_offset(i), rc)),
        placed_npcs(all.take(i + 1)) == placed_npcs(all.take(i)) + all[i].npcs@.map_values(|nc: NpcConfig| (map_offset(i), nc)),
{
    assert(all.take(i + 1).drop_last() =~= all.take(i));
    assert(all.take(i + 1).last() == all[i]);
}

/// The rooms and NPCs placed from the first maps come first among all.
proof fn lemma_placed_prefix(all: Seq<MapConfig>, i: int)
    requires
        0 <= i <= all.len(),
    ensures
        placed_rooms(all.take(i)).len() <= placed_rooms(all).len(),
        forall|p: int| 0 <= p < placed_rooms(all.take(i)).len() ==> #[trigger] placed_rooms(all.take(i))[p] == placed_rooms(all)[p],
        placed_npcs(all.take(i)).len() <= placed_npcs(all).len(),
        forall|p: int| 0 <= p < placed_npcs(all.take(i)).len() ==> #[trigger] placed_npcs(all.take(i))[p] == placed_npcs(all)[p],
    decreases all.len(),
{
    if i == all.len() {
        assert(all.take(i) =~= all);
    } else {
        lemma_placed_prefix(all.drop_last(), i);
        assert(all.drop_last().take(i) =~= all.take(i));
        let pr = placed_rooms(all.drop_last());
        let pn = placed_npcs(all.drop_last());
        assert forall|p: int| 0 <= p < pr.len() implies #[trigger] placed_rooms(all)[p] == pr[p] by {}
        assert forall|p: int| 0 <= p < pn.len() implies #[trigger] placed_npcs(all)[p] == pn[p] by {}
    }
}

/// Builds room `rc` of a map with offset `offset`.
fn build_room(rc: RoomConfig, offset: u64) -> (r: MapRoom)
    requires
        forall|x: int| 0 <= x < rc.npcs@.len() ==> #[trigger] rc.npcs@[x] + offset <= u64::MAX,
        forall|x: int| 0 <= x < rc.spawns@.len() ==> #[trigger] rc.spawns@[x].npc + offset <= u64::MAX,
    ensures
        built_room(r, rc, offset as int),
{
    let ghost rc0 = rc;
    let mut ids: Vec<u64> = Vec::new();
    let mut x: usize = 0;
    while x < rc.npcs.len()
        invariant
            x <= rc.npcs@.len(),
            forall|y: int| 0 <= y < rc.npcs@.len() ==> #[trigger] rc.npcs@[y] + offset <= u64::MAX,
            ids@ == rc.npcs@.take(x as int).map_values(|v: u64| (v + offset) as u64),
        decreases rc.npcs.len() - x,
    {
        ids.push(rc.npcs[x] + offset);
        proof {
            assert(rc.npcs@.take(x + 1) =~= rc.npcs@.take(x as int).push(rc.npcs@[x as int]));
            assert(ids@ =~= rc.npcs@.take(x + 1).map_values(|v: u64| (v + offset) as u64));
        }
        x = x + 1;
    }
    proof { assert(rc.npcs@.take(x as int) =~= rc.npcs@); }
    let ghost listed = ids@;
    let mut y: usize = 0;
    while y < rc.spawns.len()
        invariant
            y <= rc.spawns@.len(),
            forall|z: int| 0 <= z < rc.spawns@.len() ==> #[trigger] rc.spawns@[z].npc + offset <= u64::MAX,
            ids@ == listed + rc.spawns@.take(y as int).map_values(|s: SpawnConfig| (s.npc + offset) as u64),
        decreases rc.spawns.len() - y,
    {
        ids.push(rc.spawns[y].npc + offset);
        proof {
            assert(rc.spawns@.take(y + 1) =~= rc.spawns@.take(y as int).push(rc.spawns@[y as int]));
            assert(ids@ =~= listed + rc.spawns@.take(y + 1).map_values(|s: SpawnConfig| (s.npc + offset) as u64));
        }
        y = y + 1;
    }
    proof { assert(rc.spawns@.take(y as int) =~= rc.spawns@); }
    MapRoom { id: rc.id, name: rc.name, description: rc.description, exits: rc.exits, npcs: ids }
}

/// What the world holds of the placed rooms and NPCs.
pub open spec fn holds(w: World, ps: Seq<(int, RoomConfig)>, ns: Seq<(int, NpcConfig)>) -> bool {
    &&& forall|id: Seq<char>| match #[trigger] last_room(ps, id) {
        None => w.rooms.lookup(id) is None,
        Some(pr) => w.rooms.lookup(id) matches Some(r) && built_room(r, pr.1, pr.0),
    }
    &&& forall|n: u64| match #[trigger] last_npc(ns, n as int) {
        None => !w.npcs@.contains_key(n),
        Some(pn) => w.npcs@.contains_key(n) && w.npcs@[n] == built_npc(pn.1, pn.0),
    }
}

/// Whether the room under `id` in the table (if any) has every exit lead to
/// a room of the table and every NPC it names in the map of NPCs.
pub open spec fn entry_ok(rooms: Registry<MapRoom>, npcs: Map<u64, MapNpc>, id: Seq<char>) -> bool {
    rooms.lookup(id) matches Some(r) ==> {
        &&& forall|e: int| 0 <= e < r.exits@.len() ==> rooms.has((#[trigger] r.exits@[e]).1@)
        &&& forall|x: int| 0 <= x < r.npcs@.len() ==> npcs.contains_key(#[trigger] r.npcs@[x])
    }
}

/// Checking the rooms of the table is checking the rooms kept.
proof fn lemma_entry_ok(rooms: Registry<MapRoom>, npcs: Map<u64, MapNpc>, ps: Seq<(int, RoomConfig)>, ns: Seq<(int, NpcConfig)>, id: Seq<char>)
    requires
        rooms_hold(rooms, ps),
        npcs_hold(npcs, ns),
    ensures
        entry_ok(rooms, npcs, id) == room_valid(ps, ns, id),
{
    match last_room(ps, id) {
        None => {},
        Some(pr) => {
            let r = rooms.lookup(id)->0;
            assert(built_room(r, pr.1, pr.0));
            assert forall|e: int| 0 <= e < r.exits@.len() implies
                rooms.has((#[trigger] r.exits@[e]).1@) == (last_room(ps, pr.1.exits@[e].1@) is Some) by {
                let to = r.exits@[e].1@;
                assert(match last_room(ps, to) { None => rooms.lookup(to) is None, Some(q) => rooms.lookup(to) matches Some(r2) && built_room(r2, q.1, q.0) });
            }
            assert forall|x: int| 0 <= x < r.npcs@.len() implies
                npcs.contains_key(#[trigger] r.npcs@[x]) == (last_npc(ns, room_npc_ids(pr.1, pr.0)[x] as int) is Some) by {
                let n = r.npcs@[x];
                assert(match last_npc(ns, n as int) { None => !npcs.contains_key(n), Some(q) => npcs.contains_key(n) && npcs[n] == built_npc(q.1, q.0) });
            }
        },
    }
}

impl World {
    /// The world of the maps, in order: each map's rooms under their ids (a
    /// later room replacing an earlier one of the same id) and its NPCs under
    /// their numbers moved up by 100 per map before it, as are the NPC numbers
    /// the rooms list and spawn. `None` when a room kept has an exit to no
    /// room or names an NPC that is not there.
    pub fn new(maps: Vec<MapConfig>) -> (r: Option<World>)
        requires
            numbers_fit(maps@),
        ensures
            r is Some <==> maps_valid(maps@),
            r matches Some(w) ==> rooms_hold(w.rooms, placed_rooms(maps@)) && npcs_hold(w.npcs@, placed_npcs(maps@)),
    {
        let ghost all = maps@;
        let mut rooms: Registry<MapRoom> = Registry::new();
        let mut npcs: HashMap<u64, MapNpc> = HashMap::new();
        let mut rest = maps;
        let mut offset: u64 = 0;
        let ghost mut i: int = 0;
        proof {
            assert(all.take(0) =~= Seq::<MapConfig>::empty());
            assert(rest@ =~= all.skip(0));
            assert forall|id: Seq<char>| match #[trigger] last_room(placed_rooms(all.take(0)), id) {
                None => rooms.lookup(id) is None,
                Some(pr) => rooms.lookup(id) matches Some(r) && built_room(r, pr.1, pr.0),
            } by {}
            assert(npcs@ =~= Map::<u64, MapNpc>::empty());
        }
        while rest.len() > 0
            invariant
                0 <= i <= all.len(),
                rest@ == all.skip(i),
                offset == map_offset(i),
                numbers_fit(all),
                rooms_hold(rooms, placed_rooms(all.take(i))),
                npcs_hold(npcs@, placed_npcs(all.take(i))),
            decreases rest.len(),
        {
            let map = rest.remove(0);
            proof {
                assert(all.skip(i)[0] == all[i]);
                lemma_placed_step(all, i);
                lemma_placed_prefix(all, i + 1);
                assert(rest@ =~= all.skip(i + 1));
            }
            let ghost ps0 = placed_rooms(all.take(i));
            let ghost ns0 = placed_npcs(all.take(i));
            let ghost rall = map.rooms@;
            let ghost nall = map.npcs@;
            let ghost off = map_offset(i);
            let mut rs = map.rooms;
            let ghost mut j: int = 0;
            proof {
                assert(rall.take(0).map_values(|rc: RoomConfig| (off, rc)) =~= Seq::<(int, RoomConfig)>::empty());
                assert(ps0 + rall.take(0).map_values(|rc: RoomConfig| (off, rc)) =~= ps0);
                assert(rs@ =~= rall.skip(0));
            }
            while rs.len() > 0
                invariant
                    0 <= j <= rall.len(),
                    rs@ == rall.skip(j),
                    0 <= i < all.len(),
                    rall == all[i].rooms@,
                    off == map_offset(i),
                    offset == off,
                    numbers_fit(all),
                    placed_rooms(all.take(i + 1)) == ps0 + rall.map_values(|rc: RoomConfig| (off, rc)),
                    placed_rooms(all.take(i + 1)).len() <= placed_rooms(all).len(),
                    forall|p: int| 0 <= p < placed_rooms(all.take(i + 1)).len() ==> #[trigger] placed_rooms(all.take(i + 1))[p] == placed_rooms(all)[p],
                    rooms_hold(rooms, ps0 + rall.take(j).map_values(|rc: RoomConfig| (off, rc))),
                decreases rs.len(),
            {
                let rc = rs.remove(0);
                let ghost cur = ps0 + rall.take(j).map_values(|rc: RoomConfig| (off, rc));
                let ghost nxt = ps0 + rall.take(j + 1).map_values(|rc: RoomConfig| (off, rc));
                let ghost p = ps0.len() + j;
                proof {
                    assert(rall.skip(j)[0] == rall[j]);
                    assert(rc == rall[j]);
                    assert(rs@ =~= rall.skip(j + 1));
                    let pl = placed_rooms(all.take(i + 1));
                    assert(pl[p] == (off, rc));
                    assert(placed_rooms(all)[p] == (off, rc));
                    assert forall|x: int| 0 <= x < rc.npcs@.len() implies #[trigger] rc.npcs@[x] + offset <= u64::MAX by {
                        assert(placed_rooms(all)[p].1.npcs@[x] + placed_rooms(all)[p].0 <= u64::MAX);
                    }
                    assert forall|x: int| 0 <= x < rc.spawns@.len() implies #[trigger] rc.spawns@[x].npc + offset <= u64::MAX by {
                        assert(placed_rooms(all)[p].1.spawns@[x].npc + placed_rooms(all)[p].0 <= u64::MAX);
                    }
                    assert(nxt =~= cur.push((off, rc)));
                }
                let ghost rc0 = rc;
                let key = rc.id.clone();
                let room = build_room(rc, offset);
                let ghost rooms0 = rooms;
                rooms.upsert(key, room);
                proof {
                    assert(nxt.drop_last() =~= cur);
                    assert(nxt.last() == (off, rc0));
                    assert forall|id: Seq<char>| match #[trigger] last_room(nxt, id) {
                        None => rooms.lookup(id) is None,
                        Some(pr) => rooms.lookup(id) matches Some(r) && built_room(r, pr.1, pr.0),
                    } by {
                        if id != rc0.id@ {
                            assert(last_room(nxt, id) == last_room(cur, id));
                            assert(rooms.lookup(id) == rooms0.lookup(id));
                            assert(match last_room(cur, id) {
                                None => rooms0.lookup(id) is None,
                                Some(pr) => rooms0.lookup(id) matches Some(r) && built_room(r, pr.1, pr.0),
                            });
                        }
                    }
                    j = j + 1;
                }
            }
            proof { assert(rall.take(j) =~= rall); }
            let mut nsv = map.npcs;
            let ghost mut k: int = 0;
            proof {
                assert(nall.take(0).map_values(|nc: NpcConfig| (off, nc)) =~= Seq::<(int, NpcConfig)>::empty());
                assert(ns0 + nall.take(0).map_values(|nc: NpcConfig| (off, nc)) =~= ns0);
                assert(nsv@ =~= nall.skip(0));
            }
            while nsv.len() > 0
                invariant
                    0 <= k <= nall.len(),
                    nsv@ == nall.skip(k),
                    0 <= i < all.len(),
                    nall == all[i].npcs@,
                    off == map_offset(i),
                    offset == off,
                    numbers_fit(all),
                    placed_npcs(all.take(i + 1)) == ns0 + nall.map_values(|nc: NpcConfig| (off, nc)),
                    placed_npcs(all.take(i + 1)).len() <= placed_npcs(all).len(),
                    forall|p: int| 0 <= p < placed_npcs(all.take(i + 1)).len() ==> #[trigger] placed_npcs(all.take(i + 1))[p] == placed_npcs(all)[p],
                    npcs_hold(npcs@, ns0 + nall.take(k).map_values(|nc: NpcConfig| (off, nc))),
                decreases nsv.len(),
            {
                let nc = nsv.remove(0);
                let ghost cur = ns0 + nall.take(k).map_values(|nc: NpcConfig| (off, nc));
                let ghost nxt = ns0 + nall.take(k + 1).map_values(|nc: NpcConfig| (off, nc));
                let ghost p = ns0.len() + k;
                proof {
                    assert(nall.skip(k)[0] == nall[k]);
                    assert(nc == nall[k]);
                    assert(nsv@ =~= nall.skip(k + 1));
                    assert(placed_npcs(all.take(i + 1))[p] == (off, nc));
                    assert(placed_npcs(all)[p] == (off, nc));
                    assert(placed_npcs(all)[p].1.id + placed_npcs(all)[p].0 <= u64::MAX);
                    assert(nxt =~= cur.push((off, nc)));
                }
                let ghost nc0 = nc;
                let n = nc.id + offset;
                let ghost m0 = npcs@;
                npcs.insert(n, MapNpc { id: n, name: nc.name, description: nc.description, room: nc.starting_room });
                proof {
                    assert(nxt.drop_last() =~= cur);
                    assert(nxt.last() == (off, nc0));
                    assert(npcs@[n] == built_npc(nc0, off));
                    assert forall|m: u64| match #[trigger] last_npc(nxt, m as int) {
                        None => !npcs@.contains_key(m),
                        Some(pn) => npcs@.contains_key(m) && npcs@[m] == built_npc(pn.1, pn.0),
                    } by {
                        if m != n {
                            assert(last_npc(nxt, m as int) == last_npc(cur, m as int));
                            assert(match last_npc(cur, m as int) {
                                None => !m0.contains_key(m),
                                Some(pn) => m0.contains_key(m) && m0[m] == built_npc(pn.1, pn.0),
                            });
                        }
                    }
                    k = k + 1;
                }
            }
            proof {
                assert(nall.take(k) =~= nall);
                assert(map_offset(i + 1) <= map_offset(all.len() as int));
            }
            offset = offset + 100;
            proof { i = i + 1; }
        }
        proof { assert(all.take(i) =~= all); }
        let ghost ps = placed_rooms(all);
        let ghost ns = placed_npcs(all);
        let mut e: usize = 0;
        while e < rooms.entries.len()
            invariant
                e <= rooms.entries@.len(),
                ps == placed_rooms(all),
                ns == placed_npcs(all),
                all == maps@,
                rooms_hold(rooms, ps),
                npcs_hold(npcs@, ns),
                forall|f: int| 0 <= f < e ==> #[trigger] entry_ok(rooms, npcs@, rooms.entries@[f].0@),
            decreases rooms.entries.len() - e,
        {
            let key = &rooms.entries[e].0;
            proof { lemma_find_index(rooms.entries@, key@); }
            let r = match rooms.get(key.as_str()) {
                Some(r) => r,
                None => {
                    proof { assert(rooms.entries@[e as int].0@ == key@); }
                    return None;
                },
            };
            let mut x: usize = 0;
            while x < r.exits.len()
                invariant
                    x <= r.exits@.len(),
                    rooms_hold(rooms, ps),
                    npcs_hold(npcs@, ns),
                    ps == placed_rooms(all),
                    ns == placed_npcs(all),
                    all == maps@,
                    rooms.lookup(key@) == Some(*r),
                    forall|y: int| 0 <= y < x ==> rooms.has((#[trigger] r.exits@[y]).1@),
                decreases r.exits.len() - x,
            {
                if !rooms.contains_key(r.exits[x].1.as_str()) {
                    proof {
                        lemma_entry_ok(rooms, npcs@, ps, ns, key@);
                        assert(!entry_ok(rooms, npcs@, key@));
                        assert(!room_valid(ps, ns, key@));
                        assert(!maps_valid(all));
                    }
                    return None;
                }
                x = x + 1;
            }
            let mut y: usize = 0;
            while y < r.npcs.len()
                invariant
                    y <= r.npcs@.len(),
                    rooms_hold(rooms, ps),
                    npcs_hold(npcs@, ns),
                    ps == placed_rooms(all),
                    ns == placed_npcs(all),
                    all == maps@,
                    rooms.lookup(key@) == Some(*r),
                    forall|z: int| 0 <= z < y ==> npcs@.contains_key(#[trigger] r.npcs@[z]),
                decreases r.npcs.len() - y,
            {
                if !npcs.contains_key(&r.npcs[y]) {
                    proof {
                        lemma_entry_ok(rooms, npcs@, ps, ns, key@);
                        assert(!entry_ok(rooms, npcs@, key@));
                        assert(!room_valid(ps, ns, key@));
                        assert(!maps_valid(all));
                    }
                    return None;
                }
                y = y + 1;
            }
            proof { assert(entry_ok(rooms, npcs@, rooms.entries@[e as int].0@)); }
            e = e + 1;
        }
        proof {
            assert forall|id: Seq<char>| #[trigger] room_valid(ps, ns, id) by {
                lemma_entry_ok(rooms, npcs@, ps, ns, id);
                lemma_find_index(rooms.entries@, id);
                if rooms.lookup(id) is Some {
                    let f = find_index(rooms.entries@, id);
                    assert(entry_ok(rooms, npcs@, rooms.entries@[f].0@));
                }
            }
        }
        Some(World { rooms, npcs })
    }

    /// The room under `room_id`, if there is one.
    pub fn get_room(&self, room_id: &str) -> (r: Option<&MapRoom>)
        ensures
            r matches Some(x) ==> self.rooms.lookup(room_id@) == Some(*x),
            r is None ==> self.rooms.lookup(room_id@) is None,
    {
        self.rooms.get(room_id)
    }
}

} // verus!
