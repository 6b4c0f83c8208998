//! The arena's world: its rooms, the fighters in it, who fights whom, and
//! where each fighter stands; the commands a player gives there, a player
//! joining and leaving, and the combat pass of the arena's loop.

use vstd::prelude::*;
use crate::arena::combat::{resolve_attack_round_with, Combatant, RoundOutcome, UNARMED_ATTACK_COUNT, attacker_after,
    defender_after, round_fits, round_messages, damage_floor, damage_ceiling, hit_permille, calculate_hit_chance,
    calculate_physical_damage, KILL_EXPERIENCE};
use crate::chance::{choose_from, roll_in};
use crate::arena::npc::Npc;
use crate::arena::player_state::{DerivedStats, PersistentPlayerData, PlayerState};
use crate::arena::room::{exits_view, BaseRoom, Room};
use crate::command::{split_ws, lowercase, split_words, to_lowercase, views_of};
use crate::styled::{chars_of, decimal, signed_decimal, u64_text, i64_text, same_text};
use crate::ui::{joined_text, join_strings};

verus! {

/// A player connected to the arena.
pub struct ArenaPlayer {
    pub id: usize,
    pub username: String,
    pub state: PlayerState,
}

impl Combatant for ArenaPlayer {
    open spec fn id_of(&self) -> usize {
        self.id
    }

    open spec fn name_of(&self) -> Seq<char> {
        self.username@
    }

    open spec fn state_of(&self) -> PlayerState {
        self.state
    }

    fn get_id(&self) -> (r: usize) {
        self.id
    }

    fn get_name(&self) -> (r: &str) {
        self.username.as_str()
    }

    fn get_state(&self) -> (r: &PlayerState) {
        &self.state
    }

    fn get_mut_state(&mut self) -> (r: &mut PlayerState) {
        &mut self.state
    }
}

/// Everything that stands in the arena: a player or an NPC.
pub enum Entity {
    Player(ArenaPlayer),
    Npc(Npc),
}

impl Entity {
    /// The kind of the entity, for logs.
    pub fn get_entity_type(&self) -> (r: &'static str)
        ensures
            r@ == (if self is Player { "Player"@ } else { "Npc"@ }),
    {
        match self {
            Entity::Player(_) => "Player",
            Entity::Npc(_) => "Npc",
        }
    }

    /// The entity as a player, when it is one.
    pub fn as_player(&self) -> (r: Option<&ArenaPlayer>)
        ensures
            match self {
                Entity::Player(p) => r == Some(p),
                Entity::Npc(_) => r is None,
            },
    {
        match self {
            Entity::Player(p) => Some(p),
            Entity::Npc(_) => None,
        }
    }

}

impl Combatant for Entity {
    open spec fn id_of(&self) -> usize {
        match self {
            Entity::Player(p) => p.id,
            Entity::Npc(n) => n.id,
        }
    }

    open spec fn name_of(&self) -> Seq<char> {
        match self {
            Entity::Player(p) => p.username@,
            Entity::Npc(n) => n.name@,
        }
    }

    open spec fn state_of(&self) -> PlayerState {
        match self {
            Entity::Player(p) => p.state,
            Entity::Npc(n) => n.state,
        }
    }

    fn get_id(&self) -> (r: usize) {
        match self {
            Entity::Player(p) => p.id,
            Entity::Npc(n) => n.id,
        }
    }

    fn get_name(&self) -> (r: &str) {
        match self {
            Entity::Player(p) => p.username.as_str(),
            Entity::Npc(n) => n.name.as_str(),
        }
    }

    fn get_state(&self) -> (r: &PlayerState) {
        match self {
            Entity::Player(p) => &p.state,
            Entity::Npc(n) => &n.state,
        }
    }

    fn get_mut_state(&mut self) -> (r: &mut PlayerState) {
        match self {
            Entity::Player(p) => &mut p.state,
            Entity::Npc(n) => &mut n.state,
        }
    }
}

/// The rooms of the arena, the entities in it, and the fights under way as
/// pairs of attacker and defender.
pub struct World {
    pub rooms: Vec<BaseRoom>,
    pub entities: Vec<Entity>,
    pub active_combats: Vec<(usize, usize)>,
}

/// Where each entity stands: entity ids and room ids, each entity once.
pub struct LocationManager {
    pub locations: Vec<(usize, usize)>,
}

/// The position of the first room with id `id`, or -1.
pub open spec fn room_index(rooms: Seq<BaseRoom>, id: usize) -> int
    decreases rooms.len(),
{
    if rooms.len() == 0 {
        -1
    } else if rooms.last().id == id && room_index(rooms.drop_last(), id) < 0 {
        rooms.len() - 1
    } else {
        room_index(rooms.drop_last(), id)
    }
}

/// The position of the first entity with id `id`, or -1.
pub open spec fn entity_index(ents: Seq<Entity>, id: usize) -> int
    decreases ents.len(),
{
    if ents.len() == 0 {
        -1
    } else if ents.last().id_of() == id && entity_index(ents.drop_last(), id) < 0 {
        ents.len() - 1
    } else {
        entity_index(ents.drop_last(), id)
    }
}

/// The room entity `id` stands in, if any.
pub open spec fn location_of(locs: Seq<(usize, usize)>, id: usize) -> Option<usize>
    decreases locs.len(),
{
    if locs.len() == 0 {
        None
    } else if locs.last().0 == id {
        Some(locs.last().1)
    } else {
        location_of(locs.drop_last(), id)
    }
}

impl World {
    /// The arena is well formed: each room once, no direction of a room
    /// twice, and every exit leads to a room of the arena.
    pub open spec fn wf(&self) -> bool {
        &&& forall|i: int, j: int| 0 <= i < j < self.rooms@.len() ==> self.rooms@[i].id != self.rooms@[j].id
        &&& forall|i: int| 0 <= i < self.rooms@.len() ==> (#[trigger] self.rooms@[i]).wf()
        &&& forall|i: int, k: int| 0 <= i < self.rooms@.len() && 0 <= k < self.rooms@[i].exits@.len()
            ==> room_index(self.rooms@, #[trigger] self.rooms@[i].exits@[k].1) >= 0
    }

    /// The arena as it opens: a great hall with a corridor to its north, no
    /// one in it and no fights.
    pub fn new() -> (w: World)
        ensures
            w.wf(),
            w.rooms@.len() == 2,
            w.rooms@[0].id == 0 && w.rooms@[0].name@ == "Great Hall"@
                && w.rooms@[0].description@ == "A vast, stone-walled great hall with a large fireplace."@
                && exits_view(w.rooms@[0].exits@) == seq![("north"@, 1usize)],
            w.rooms@[1].id == 1 && w.rooms@[1].name@ == "Narrow Corridor"@
                && w.rooms@[1].description@ == "A dimly lit corridor. The Great Hall is to the south."@
                && exits_view(w.rooms@[1].exits@) == seq![("south"@, 0usize)],
            w.entities@.len() == 0,
            w.active_combats@.len() == 0,
    {
        let mut hall_exits: Vec<(String, usize)> = Vec::new();
        hall_exits.push((String::from_str("north"), 1));
        let great_hall = BaseRoom {
            id: 0,
            name: String::from_str("Great Hall"),
            description: String::from_str("A vast, stone-walled great hall with a large fireplace."),
            exits: hall_exits,
        };
        let mut corridor_exits: Vec<(String, usize)> = Vec::new();
        corridor_exits.push((String::from_str("south"), 0));
        let narrow_corridor = BaseRoom {
            id: 1,
            name: String::from_str("Narrow Corridor"),
            description: String::from_str("A dimly lit corridor. The Great Hall is to the south."),
            exits: corridor_exits,
        };
        let mut rooms: Vec<BaseRoom> = Vec::new();
        rooms.push(great_hall);
        rooms.push(narrow_corridor);
        let w = World { rooms, entities: Vec::new(), active_combats: Vec::new() };
        proof {
            assert(exits_view(w.rooms@[0].exits@) =~= seq![("north"@, 1usize)]);
            assert(exits_view(w.rooms@[1].exits@) =~= seq![("south"@, 0usize)]);
            let r = w.rooms@;
            assert(r.drop_last() =~= seq![r[0]]);
            assert(seq![r[0]].drop_last() =~= Seq::<BaseRoom>::empty());
            assert(room_index(Seq::<BaseRoom>::empty(), 0) == -1);
            assert(room_index(Seq::<BaseRoom>::empty(), 1) == -1);
            assert(room_index(seq![r[0]], 0) == 0);
            assert(room_index(seq![r[0]], 1) == -1);
            assert(room_index(r, 0) == 0);
            assert(room_index(r, 1) == 1);
        }
        w
    }
}

impl LocationManager {
    /// No one stands anywhere yet.
    pub fn new() -> (l: LocationManager)
        ensures
            l.locations@.len() == 0,
    {
        LocationManager { locations: Vec::new() }
    }

    /// The room entity `entity_id` stands in.
    pub fn get_room_id(&self, entity_id: usize) -> (r: Option<usize>)
        ensures
            r == location_of(self.locations@, entity_id),
    {
        let mut i = self.locations.len();
        proof { assert(self.locations@.take(i as int) =~= self.locations@); }
        while i > 0
            invariant
                i <= self.locations.len(),
                location_of(self.locations@.take(i as int), entity_id) == location_of(self.locations@, entity_id),
            decreases i,
        {
            let ghost t = self.locations@.take(i as int);
            proof { assert(t.drop_last() =~= self.locations@.take(i - 1)); }
            if self.locations[i - 1].0 == entity_id {
                return Some(self.locations[i - 1].1);
            }
            i = i - 1;
        }
        proof { assert(self.locations@.take(0) =~= Seq::<(usize, usize)>::empty()); }
        None
    }

    /// Puts entity `entity_id` in room `room_id`.
    pub fn set_room_id(&mut self, entity_id: usize, room_id: usize)
        ensures
            final(self).locations@ == old(self).locations@.push((entity_id, room_id)),
            location_of(final(self).locations@, entity_id) == Some(room_id),
            forall|o: usize| o != entity_id ==> location_of(final(self).locations@, o) == location_of(old(self).locations@, o),
    {
        let ghost l0 = self.locations@;
        self.locations.push((entity_id, room_id));
        proof {
            assert(self.locations@.drop_last() =~= l0);
        }
    }

    /// Takes entity `entity_id` off the map.
    pub fn remove_location(&mut self, entity_id: usize)
        ensures
            forall|i: int| 0 <= i < final(self).locations@.len() ==> old(self).locations@.contains(#[trigger] final(self).locations@[i]),
            location_of(final(self).locations@, entity_id) is None,
            forall|o: usize| o != entity_id ==> location_of(final(self).locations@, o) == location_of(old(self).locations@, o),
    {
        let ghost l0 = self.locations@;
        let mut kept: Vec<(usize, usize)> = Vec::new();
        let mut i: usize = 0;
        proof {
            assert forall|o: usize| o != entity_id implies location_of(kept@, o) == location_of(l0.take(0), o) by {
                assert(l0.take(0) =~= Seq::<(usize, usize)>::empty());
            }
        }
        while i < self.locations.len()
            invariant
                i <= self.locations.len(),
                self.locations@ == l0,
                location_of(kept@, entity_id) is None,
                forall|o: usize| o != entity_id ==> location_of(kept@, o) == location_of(l0.take(i as int), o),
                forall|j: int| 0 <= j < kept@.len() ==> l0.contains(#[trigger] kept@[j]),
            decreases self.locations.len() - i,
        {
            let ghost k0 = kept@;
            proof { assert(l0.take(i + 1).drop_last() =~= l0.take(i as int)); }
            let e = self.locations[i];
            proof { assert(l0.take(i + 1).last() == e); }
            if e.0 != entity_id {
                kept.push(e);
                proof {
                    assert(kept@.drop_last() =~= k0);
                    assert(l0[i as int] == e);
                    assert forall|j: int| 0 <= j < kept@.len() implies l0.contains(#[trigger] kept@[j]) by {
                        if j < k0.len() {
                            assert(kept@[j] == k0[j]);
                        }
                    }
                }
            }
            proof {
                assert forall|o: usize| o != entity_id implies location_of(kept@, o) == location_of(l0.take(i + 1), o) by {
                    assert(location_of(l0.take(i + 1), o) == (if e.0 == o { Some(e.1) } else { location_of(l0.take(i as int), o) }));
                    if e.0 != entity_id {
                        assert(location_of(kept@, o) == (if e.0 == o { Some(e.1) } else { location_of(k0, o) }));
                    }
                }
            }
            i = i + 1;
        }
        proof { assert(l0.take(i as int) =~= l0); }
        self.locations = kept;
    }
}

/// The code of a character with ASCII capitals lowered.
pub open spec fn ascii_lower(c: char) -> int {
    if 'A' <= c <= 'Z' { (c as u32) + 32 } else { c as u32 as int }
}

/// Whether two texts are equal up to ASCII case (`eq_ignore_ascii_case`).
pub open spec fn same_ignoring_ascii_case(a: Seq<char>, b: Seq<char>) -> bool {
    a.len() == b.len() && forall|i: int| 0 <= i < a.len() ==> ascii_lower(#[trigger] a[i]) == ascii_lower(b[i])
}

/// The code of a character with ASCII capitals lowered.
fn lower_ascii(c: char) -> (r: u32)
    ensures
        r == ascii_lower(c),
{
    if 'A' <= c && c <= 'Z' { c as u32 + 32 } else { c as u32 }
}

/// `str::eq_ignore_ascii_case`.
pub fn eq_ignore_ascii_case(a: &str, b: &str) -> (r: bool)
    ensures
        r == same_ignoring_ascii_case(a@, b@),
{
    let x = chars_of(a);
    let y = chars_of(b);
    if x.len() != y.len() {
        return false;
    }
    let mut i: usize = 0;
    while i < x.len()
        invariant
            x@ == a@,
            y@ == b@,
            x.len() == y.len(),
            i <= x.len(),
            forall|j: int| 0 <= j < i ==> ascii_lower(#[trigger] x@[j]) == ascii_lower(y@[j]),
        decreases x.len() - i,
    {
        if lower_ascii(x[i]) != lower_ascii(y[i]) {
            return false;
        }
        i = i + 1;
    }
    true
}

/// The `i`-th word, or the empty text when there are fewer words.
pub open spec fn word_or_empty(ws: Seq<Seq<char>>, i: int) -> Seq<char> {
    if 0 <= i < ws.len() { ws[i] } else { Seq::empty() }
}

/// The names of a room's exits, in order.
pub open spec fn exit_directions(r: BaseRoom) -> Seq<Seq<char>> {
    exits_view(r.exits@).map_values(|e: (Seq<char>, usize)| e.0)
}

/// The names of the entities other than `pid` that stand in `room`, in order.
pub open spec fn others_in(ents: Seq<Entity>, locs: Seq<(usize, usize)>, room: usize, pid: usize) -> Seq<Seq<char>>
    decreases ents.len(),
{
    if ents.len() == 0 {
        Seq::empty()
    } else {
        let rest = others_in(ents.drop_last(), locs, room, pid);
        let e = ents.last();
        if e.id_of() != pid && location_of(locs, e.id_of()) == Some(room) { rest.push(e.name_of()) } else { rest }
    }
}

/// What `look` shows: the room, its exits, and whoever else is there.
pub open spec fn look_text(r: BaseRoom, others: Seq<Seq<char>>) -> Seq<char> {
    r.name@ + " - "@ + r.description@ + "\nExits: "@ + joined_text(exit_directions(r), ", "@)
        + (if others.len() == 0 { Seq::empty() } else { "\nYou also see: "@ + joined_text(others, ", "@) })
}

/// The room an exit in direction `dir` leads to, if the room has one.
pub open spec fn exit_to(exits: Seq<(Seq<char>, usize)>, dir: Seq<char>) -> Option<usize>
    decreases exits.len(),
{
    if exits.len() == 0 {
        None
    } else if exits[0].0 == dir {
        Some(exits[0].1)
    } else {
        exit_to(exits.drop_first(), dir)
    }
}

/// The first entity standing in `room` whose name is `target` up to ASCII case.
pub open spec fn kill_target(ents: Seq<Entity>, locs: Seq<(usize, usize)>, room: usize, target: Seq<char>) -> Option<usize>
    decreases ents.len(),
{
    if ents.len() == 0 {
        None
    } else if location_of(locs, ents[0].id_of()) == Some(room) && same_ignoring_ascii_case(ents[0].name_of(), target) {
        Some(ents[0].id_of())
    } else {
        kill_target(ents.drop_first(), locs, room, target)
    }
}

/// The status sheet of a fighter.
pub open spec fn status_text(st: PlayerState) -> Seq<char> {
    "--- Player Status ---\nLevel: "@ + decimal(st.progression.level as nat) + " | Exp: "@ + decimal(st.progression.experience as nat)
        + "/100\nHP: "@ + signed_decimal(st.derived.hp as int) + "/"@ + signed_decimal(st.derived.max_hp as int)
        + " | MP: "@ + signed_decimal(st.derived.mp as int) + "/"@ + signed_decimal(st.derived.max_mp as int)
        + "\n\nStr: "@ + signed_decimal(st.base.strength as int) + " | Agi: "@ + signed_decimal(st.base.agility as int)
        + " | Con: "@ + signed_decimal(st.base.constitution as int) + " | Comp: "@ + signed_decimal(st.base.comprehension as int)
}

/// The command word of a line: its first word in lowercase (`to_lowercase`
/// of the empty text for an empty line).
pub open spec fn command_word(line: Seq<char>) -> Seq<char> {
    lowercase(word_or_empty(split_ws(line), 0))
}

/// The reply to a command of player `pid` standing in `room`.
pub open spec fn reply(w: World, locs: Seq<(usize, usize)>, pid: usize, room: usize, line: Seq<char>) -> Seq<char> {
    let ws = split_ws(line);
    let cmd = command_word(line);
    let arg = word_or_empty(ws, 1);
    let here = w.rooms@[room_index(w.rooms@, room)];
    if cmd == "look"@ {
        look_text(here, others_in(w.entities@, locs, room, pid))
    } else if cmd == "go"@ {
        if arg.len() == 0 {
            "Go where?"@
        } else {
            match exit_to(exits_view(here.exits@), arg) {
                Some(next) => {
                    let there = w.rooms@[room_index(w.rooms@, next)];
                    "You move "@ + arg + ".\n"@ + there.description@ + "\nExits: "@ + joined_text(exit_directions(there), ", "@)
                },
                None => "You can't go that way."@,
            }
        }
    } else if cmd == "kill"@ {
        if arg.len() == 0 {
            "Kill what?"@
        } else {
            match kill_target(w.entities@, locs, room, arg) {
                Some(id) => if id == pid { "You can't fight yourself."@ } else { "You attack the "@ + arg + "!"@ },
                None => "There is no one named '"@ + arg + "' here."@,
            }
        }
    } else if cmd == "status"@ || cmd == "score"@ {
        if entity_index(w.entities@, pid) >= 0 {
            status_text(w.entities@[entity_index(w.entities@, pid)].state_of())
        } else {
            "Could not find your player data."@
        }
    } else if cmd == "help"@ {
        "Commands: look, go [dir], kill [target], status, help"@
    } else {
        "Unknown command."@
    }
}

/// The entity a command of player `pid` in `room` starts a fight with: a
/// `kill` naming someone else in the room.
pub open spec fn fight_started(w: World, locs: Seq<(usize, usize)>, pid: usize, room: usize, line: Seq<char>) -> Option<usize> {
    let cmd = command_word(line);
    let arg = word_or_empty(split_ws(line), 1);
    if cmd == "kill"@ && arg.len() > 0 {
        match kill_target(w.entities@, locs, room, arg) {
            Some(id) => if id != pid { Some(id) } else { None },
            None => None,
        }
    } else {
        None
    }
}

/// Every entity that stands somewhere stands in a room of the arena.
pub open spec fn located_in_rooms(w: World, locs: Seq<(usize, usize)>) -> bool {
    forall|i: int| 0 <= i < locs.len() ==> room_index(w.rooms@, (#[trigger] locs[i]).1) >= 0
}

/// `room_index` finds the first room with the id.
pub proof fn lemma_room_index(rooms: Seq<BaseRoom>, id: usize)
    ensures
        -1 <= room_index(rooms, id) < rooms.len(),
        room_index(rooms, id) >= 0 ==> rooms[room_index(rooms, id)].id == id,
        room_index(rooms, id) < 0 ==> forall|j: int| 0 <= j < rooms.len() ==> rooms[j].id != id,
    decreases rooms.len(),
{
    if rooms.len() > 0 {
        lemma_room_index(rooms.drop_last(), id);
        assert forall|j: int| 0 <= j < rooms.len() - 1 implies rooms[j] == rooms.drop_last()[j] by {}
    }
}

/// A location found is a pair of the map.
pub proof fn lemma_location_of(locs: Seq<(usize, usize)>, id: usize)
    ensures
        location_of(locs, id) matches Some(r) ==> exists|k: int| 0 <= k < locs.len() && locs[k] == (id, r),
    decreases locs.len(),
{
    if locs.len() > 0 {
        lemma_location_of(locs.drop_last(), id);
        if locs.last().0 != id {
            if location_of(locs, id) is Some {
                let r = location_of(locs, id)->0;
                let k = choose|k: int| 0 <= k < locs.drop_last().len() && locs.drop_last()[k] == (id, r);
                assert(locs[k] == (id, r));
            }
        } else {
            assert(locs[locs.len() - 1] == (id, locs.last().1));
        }
    }
}

/// An exit found is one of the room's exits.
pub proof fn lemma_exit_to(exits: Seq<(Seq<char>, usize)>, dir: Seq<char>)
    ensures
        exit_to(exits, dir) matches Some(t) ==> exists|k: int| 0 <= k < exits.len() && exits[k].1 == t,
    decreases exits.len(),
{
    if exits.len() > 0 && exits[0].0 != dir {
        lemma_exit_to(exits.drop_first(), dir);
        if exit_to(exits, dir) is Some {
            let t = exit_to(exits, dir)->0;
            let k = choose|k: int| 0 <= k < exits.drop_first().len() && exits.drop_first()[k].1 == t;
            assert(exits[k + 1].1 == t);
        }
    }
}

/// The position of the room with id `id`.
fn find_room(rooms: &Vec<BaseRoom>, id: usize) -> (r: Option<usize>)
    ensures
        r is None <==> room_index(rooms@, id) < 0,
        r matches Some(k) ==> k as int == room_index(rooms@, id),
{
    proof { lemma_room_index(rooms@, id); }
    let mut k: usize = 0;
    let mut found: Option<usize> = None;
    while k < rooms.len()
        invariant
            k <= rooms.len(),
            found is None <==> room_index(rooms@.take(k as int), id) < 0,
            found matches Some(f) ==> f as int == room_index(rooms@.take(k as int), id),
        decreases rooms.len() - k,
    {
        proof { assert(rooms@.take(k + 1).drop_last() =~= rooms@.take(k as int)); }
        if found.is_none() && rooms[k].id == id {
            found = Some(k);
        }
        k = k + 1;
    }
    proof { assert(rooms@.take(k as int) =~= rooms@); }
    found
}

/// `entity_index` finds the first entity with the id.
pub proof fn lemma_entity_index(ents: Seq<Entity>, id: usize)
    ensures
        -1 <= entity_index(ents, id) < ents.len(),
        entity_index(ents, id) >= 0 ==> ents[entity_index(ents, id)].id_of() == id,
        entity_index(ents, id) >= 0 ==> forall|j: int| 0 <= j < entity_index(ents, id) ==> ents[j].id_of() != id,
        entity_index(ents, id) < 0 ==> forall|j: int| 0 <= j < ents.len() ==> ents[j].id_of() != id,
    decreases ents.len(),
{
    if ents.len() > 0 {
        lemma_entity_index(ents.drop_last(), id);
        assert forall|j: int| 0 <= j < ents.len() - 1 implies ents[j] == ents.drop_last()[j] by {}
    }
}

/// The position of the entity with id `id`.
fn find_entity(ents: &Vec<Entity>, id: usize) -> (r: Option<usize>)
    ensures
        r is None <==> entity_index(ents@, id) < 0,
        r matches Some(k) ==> k as int == entity_index(ents@, id),
{
    let mut k: usize = 0;
    let mut found: Option<usize> = None;
    while k < ents.len()
        invariant
            k <= ents.len(),
            found is None <==> entity_index(ents@.take(k as int), id) < 0,
            found matches Some(f) ==> f as int == entity_index(ents@.take(k as int), id),
        decreases ents.len() - k,
    {
        proof { assert(ents@.take(k + 1).drop_last() =~= ents@.take(k as int)); }
        if found.is_none() && ents[k].get_id() == id {
            found = Some(k);
        }
        k = k + 1;
    }
    proof { assert(ents@.take(k as int) =~= ents@); }
    found
}

/// The names of a room's exits.
fn exit_names_of(r: &BaseRoom) -> (v: Vec<String>)
    ensures
        views_of(v@) == exit_directions(*r),
{
    let mut v: Vec<String> = Vec::new();
    let mut i: usize = 0;
    while i < r.exits.len()
        invariant
            i <= r.exits.len(),
            views_of(v@) == exit_directions(*r).take(i as int),
        decreases r.exits.len() - i,
    {
        let ghost v0 = v@;
        v.push(r.exits[i].0.clone());
        proof {
            assert(exit_directions(*r)[i as int] == r.exits@[i as int].0@);
            assert(views_of(v@) =~= views_of(v0).push(r.exits@[i as int].0@));
            assert(views_of(v@) =~= exit_directions(*r).take(i + 1));
        }
        i = i + 1;
    }
    proof { assert(exit_directions(*r).take(i as int) =~= exit_directions(*r)); }
    v
}

/// The names of the others standing in `room`.
fn others_here(w: &World, locs: &LocationManager, room: usize, pid: usize) -> (v: Vec<String>)
    ensures
        views_of(v@) == others_in(w.entities@, locs.locations@, room, pid),
{
    let mut v: Vec<String> = Vec::new();
    let mut i: usize = 0;
    while i < w.entities.len()
        invariant
            i <= w.entities.len(),
            views_of(v@) == others_in(w.entities@.take(i as int), locs.locations@, room, pid),
        decreases w.entities.len() - i,
    {
        proof { assert(w.entities@.take(i + 1).drop_last() =~= w.entities@.take(i as int)); }
        let e = &w.entities[i];
        let id = e.get_id();
        if id != pid && locs.get_room_id(id) == Some(room) {
            v.push(String::from_str(e.get_name()));
            proof { assert(views_of(v@) =~= others_in(w.entities@.take(i as int), locs.locations@, room, pid).push(e.name_of())); }
        }
        i = i + 1;
    }
    proof { assert(w.entities@.take(i as int) =~= w.entities@); }
    v
}

/// The room the exit in direction `dir` leads to.
fn find_exit(r: &BaseRoom, dir: &str) -> (t: Option<usize>)
    ensures
        t == exit_to(exits_view(r.exits@), dir@),
{
    let ghost ev = exits_view(r.exits@);
    let mut i: usize = 0;
    proof { assert(ev.skip(0) =~= ev); }
    while i < r.exits.len()
        invariant
            i <= r.exits.len(),
            ev == exits_view(r.exits@),
            exit_to(ev.skip(i as int), dir@) == exit_to(ev, dir@),
        decreases r.exits.len() - i,
    {
        proof { assert(ev.skip(i as int).drop_first() =~= ev.skip(i + 1)); }
        if same_text(r.exits[i].0.as_str(), dir) {
            return Some(r.exits[i].1);
        }
        i = i + 1;
    }
    None
}

/// The first entity in `room` named `target` up to ASCII case.
fn find_target(w: &World, locs: &LocationManager, room: usize, target: &str) -> (t: Option<usize>)
    ensures
        t == kill_target(w.entities@, locs.locations@, room, target@),
{
    let ghost es = w.entities@;
    let mut i: usize = 0;
    proof { assert(es.skip(0) =~= es); }
    while i < w.entities.len()
        invariant
            i <= w.entities.len(),
            es == w.entities@,
            kill_target(es.skip(i as int), locs.locations@, room, target@) == kill_target(es, locs.locations@, room, target@),
        decreases w.entities.len() - i,
    {
        proof { assert(es.skip(i as int).drop_first() =~= es.skip(i + 1)); }
        let e = &w.entities[i];
        if locs.get_room_id(e.get_id()) == Some(room) && eq_ignore_ascii_case(e.get_name(), target) {
            return Some(e.get_id());
        }
        i = i + 1;
    }
    None
}

/// The status sheet of a fighter.
fn status_sheet(st: &PlayerState) -> (r: String)
    ensures
        r@ == status_text(*st),
{
    let mut r = String::from_str("--- Player Status ---\nLevel: ");
    r.append(u64_text(st.progression.level as u64).as_str());
    r.append(" | Exp: ");
    r.append(u64_text(st.progression.experience).as_str());
    r.append("/100\nHP: ");
    r.append(i64_text(st.derived.hp as i64).as_str());
    r.append("/");
    r.append(i64_text(st.derived.max_hp as i64).as_str());
    r.append(" | MP: ");
    r.append(i64_text(st.derived.mp as i64).as_str());
    r.append("/");
    r.append(i64_text(st.derived.max_mp as i64).as_str());
    r.append("\n\nStr: ");
    r.append(i64_text(st.base.strength as i64).as_str());
    r.append(" | Agi: ");
    r.append(i64_text(st.base.agility as i64).as_str());
    r.append(" | Con: ");
    r.append(i64_text(st.base.constitution as i64).as_str());
    r.append(" | Comp: ");
    r.append(i64_text(st.base.comprehension as i64).as_str());
    r
}

/// Carries out a command of player `player_id` and returns the reply: a
/// player with no location gets an error; `look` shows the room, `go`
/// moves through an exit, `kill` starts a fight both ways with someone in
/// the room, `status` (or `score`) shows the player's sheet, `help` lists
/// the commands.
pub fn process_command(world: &mut World, locations: &mut LocationManager, player_id: usize, command_str: &str) -> (r: String)
    requires
        old(world).wf(),
        located_in_rooms(*old(world), old(locations).locations@),
    ensures
        final(world).wf(),
        located_in_rooms(*final(world), final(locations).locations@),
        final(world).rooms == old(world).rooms,
        final(world).entities == old(world).entities,
        location_of(old(locations).locations@, player_id) is None ==> {
            &&& r@ == "Error: Your player has no location in the world."@
            &&& *final(world) == *old(world)
            &&& final(locations).locations@ == old(locations).locations@
        },
        location_of(old(locations).locations@, player_id) matches Some(room) ==> {
            let cmd = command_word(command_str@);
            let arg = word_or_empty(split_ws(command_str@), 1);
            let here = old(world).rooms@[room_index(old(world).rooms@, room)];
            &&& r@ == reply(*old(world), old(locations).locations@, player_id, room, command_str@)
            &&& (cmd == "go"@ && arg.len() > 0 && exit_to(exits_view(here.exits@), arg) is Some ==> {
                    let next = exit_to(exits_view(here.exits@), arg)->0;
                    &&& location_of(final(locations).locations@, player_id) == Some(next)
                    &&& forall|o: usize| o != player_id ==> location_of(final(locations).locations@, o)
                        == location_of(old(locations).locations@, o)
                })
            &&& (!(cmd == "go"@ && arg.len() > 0 && exit_to(exits_view(here.exits@), arg) is Some)
                ==> final(locations).locations@ == old(locations).locations@)
            &&& match fight_started(*old(world), old(locations).locations@, player_id, room, command_str@) {
                Some(id) => final(world).active_combats@ == old(world).active_combats@.push((player_id, id)).push((id, player_id)),
                None => final(world).active_combats == old(world).active_combats,
            }
        },
{
    let room_id = match locations.get_room_id(player_id) {
        Some(r) => r,
        None => return String::from_str("Error: Your player has no location in the world."),
    };
    let cs = chars_of(command_str);
    let words = split_words(&cs);
    let first: &str = if words.len() > 0 { words[0].as_str() } else { "" };
    let command = to_lowercase(first);
    let arg: &str = if words.len() > 1 { words[1].as_str() } else { "" };
    proof {
        reveal_strlit("");
        reveal_strlit("look");
        reveal_strlit("go");
        reveal_strlit("kill");
        reveal_strlit("status");
        reveal_strlit("score");
        reveal_strlit("help");
        assert("look"@[0] != "kill"@[0] && "go"@[0] != "kill"@[0] && "status"@[0] != "kill"@[0]);
        assert("score"@[0] != "kill"@[0] && "help"@[0] != "kill"@[0] && "look"@[0] != "go"@[0]);
        assert(first@ == word_or_empty(split_ws(command_str@), 0));
        assert(arg@ == word_or_empty(split_ws(command_str@), 1));
        lemma_room_index(world.rooms@, room_id);
        lemma_location_of(locations.locations@, player_id);
        let k = choose|k: int| 0 <= k < locations.locations@.len() && locations.locations@[k] == (player_id, room_id);
        assert(room_index(world.rooms@, locations.locations@[k].1) >= 0);
    }
    let ri = match find_room(&world.rooms, room_id) {
        Some(k) => k,
        None => return String::new(),
    };
    if same_text(command.as_str(), "look") {
        let exits = exit_names_of(&world.rooms[ri]);
        let others = others_here(world, locations, room_id, player_id);
        let here = &world.rooms[ri];
        let mut out = String::from_str(here.name.as_str());
        out.append(" - ");
        out.append(here.description.as_str());
        out.append("\nExits: ");
        out.append(join_strings(&exits, ", ").as_str());
        if others.len() > 0 {
            out.append("\nYou also see: ");
            out.append(join_strings(&others, ", ").as_str());
        }
        proof {
            assert(command_word(command_str@) == "look"@);
            assert(views_of(exits@) == exit_directions(world.rooms@[ri as int]));
            assert(out@ == look_text(world.rooms@[ri as int], others_in(world.entities@, locations.locations@, room_id, player_id)));
        }
        return out;
    }
    if same_text(command.as_str(), "go") {
        if arg.unicode_len() == 0 {
            return String::from_str("Go where?");
        }
        match find_exit(&world.rooms[ri], arg) {
            Some(next) => {
                proof {
                    let ev = exits_view(world.rooms@[ri as int].exits@);
                    lemma_exit_to(ev, arg@);
                    let k = choose|k: int| 0 <= k < ev.len() && ev[k].1 == next;
                    assert(ev[k].1 == world.rooms@[ri as int].exits@[k].1);
                    assert(room_index(world.rooms@, world.rooms@[ri as int].exits@[k].1) >= 0);
                }
                let ghost l0 = locations.locations@;
                locations.set_room_id(player_id, next);
                proof {
                    assert forall|i: int| 0 <= i < locations.locations@.len() implies room_index(world.rooms@, (#[trigger] locations.locations@[i]).1) >= 0 by {
                        if i < l0.len() {
                            assert(locations.locations@[i] == l0[i]);
                        }
                    }
                }
                let ni = match find_room(&world.rooms, next) {
                    Some(k) => k,
                    None => return String::new(),
                };
                proof { lemma_room_index(world.rooms@, next); }
                let exits = exit_names_of(&world.rooms[ni]);
                let mut out = String::from_str("You move ");
                out.append(arg);
                out.append(".\n");
                out.append(world.rooms[ni].description.as_str());
                out.append("\nExits: ");
                out.append(join_strings(&exits, ", ").as_str());
                return out;
            },
            None => return String::from_str("You can't go that way."),
        }
    }
    if same_text(command.as_str(), "kill") {
        if arg.unicode_len() == 0 {
            return String::from_str("Kill what?");
        }
        match find_target(world, locations, room_id, arg) {
            Some(id) => {
                if id == player_id {
                    return String::from_str("You can't fight yourself.");
                }
                world.active_combats.push((player_id, id));
                world.active_combats.push((id, player_id));
                let mut out = String::from_str("You attack the ");
                out.append(arg);
                out.append("!");
                return out;
            },
            None => {
                let mut out = String::from_str("There is no one named '");
                out.append(arg);
                out.append("' here.");
                return out;
            },
        }
    }
    if same_text(command.as_str(), "status") || same_text(command.as_str(), "score") {
        return match find_entity(&world.entities, player_id) {
            Some(k) => {
                proof { lemma_entity_index(world.entities@, player_id); }
                status_sheet(world.entities[k].get_state())
            },
            None => String::from_str("Could not find your player data."),
        };
    }
    if same_text(command.as_str(), "help") {
        return String::from_str("Commands: look, go [dir], kill [target], status, help");
    }
    String::from_str("Unknown command.")
}

/// The room a new player starts in.
pub const SPAWN_ROOM_ID: usize = 0;

/// A message to an arena client: text, the whole state, or the vitals.
pub enum ServerMessage {
    GameMessage { content: String },
    FullState { state: PlayerState },
    DerivedStatsUpdate { state: DerivedStats },
}

/// The saved data of each user name; a later save replaces an earlier one.
pub struct PlayerDatabase {
    pub saved: crate::world_model::Registry<PersistentPlayerData>,
}

/// The greeting of a player joining: a newcomer is welcomed, a returning
/// player welcomed back, each with the description of the room.
pub open spec fn greeting(username: Seq<char>, returning: bool, room: BaseRoom) -> Seq<char> {
    (if returning { "Welcome back, "@ } else { "Welcome, "@ }) + username + "!\n"@ + room.description@
}

/// Puts `e` in place of the entity with its id, or adds it at the end.
pub open spec fn with_entity(ents: Seq<Entity>, e: Entity) -> Seq<Entity> {
    let i = entity_index(ents, e.id_of());
    if i >= 0 { ents.update(i, e) } else { ents.push(e) }
}

/// Whether the saved rooms are rooms of the arena.
pub open spec fn saved_in_rooms(w: World, db: PlayerDatabase) -> bool {
    forall|i: int| 0 <= i < db.saved.entries@.len() ==> room_index(w.rooms@, (#[trigger] db.saved.entries@[i]).1.room_id) >= 0
}

/// A player joins as `username` with id `id`: with the state and room saved
/// under that name, or else with `fresh` in the spawn room. The player is
/// told the greeting and its whole state.
pub fn join(
    world: &mut World,
    locations: &mut LocationManager,
    db: &PlayerDatabase,
    id: usize,
    username: String,
    fresh: PlayerState,
) -> (msgs: Vec<ServerMessage>)
    requires
        old(world).wf(),
        room_index(old(world).rooms@, SPAWN_ROOM_ID) >= 0,
        located_in_rooms(*old(world), old(locations).locations@),
        saved_in_rooms(*old(world), *db),
    ensures
        final(world).wf(),
        located_in_rooms(*final(world), final(locations).locations@),
        final(world).rooms == old(world).rooms,
        final(world).active_combats == old(world).active_combats,
        ({
            let saved = db.saved.lookup(username@);
            let state = match saved { Some(d) => d.state, None => fresh };
            let room = match saved { Some(d) => d.room_id, None => SPAWN_ROOM_ID };
            &&& final(world).entities@.len() >= 1
            &&& entity_index(final(world).entities@, id) >= 0
            &&& final(world).entities@[entity_index(final(world).entities@, id)].state_of() == state
            &&& final(world).entities@[entity_index(final(world).entities@, id)].name_of() == username@
            &&& final(world).entities@[entity_index(final(world).entities@, id)] is Player
            &&& location_of(final(locations).locations@, id) == Some(room)
            &&& forall|o: usize| o != id ==> location_of(final(locations).locations@, o) == location_of(old(locations).locations@, o)
            &&& msgs@.len() == 2
            &&& msgs@[0] matches ServerMessage::GameMessage { content } && content@ == greeting(username@, saved is Some,
                    old(world).rooms@[room_index(old(world).rooms@, room)])
            &&& msgs@[1] matches ServerMessage::FullState { state: s } && s == state
        }),
{
    let (state, room_id, returning) = match db.saved.get(username.as_str()) {
        Some(d) => (d.state, d.room_id, true),
        None => (fresh, SPAWN_ROOM_ID, false),
    };
    proof {
        crate::world_model::lemma_find_index(db.saved.entries@, username@);
        if returning {
            let k = crate::world_model::find_index(db.saved.entries@, username@);
            assert(db.saved.entries@[k].1.room_id == room_id);
        }
        assert(room_index(world.rooms@, room_id) >= 0);
        lemma_room_index(world.rooms@, room_id);
    }
    let mut content = String::from_str(if returning { "Welcome back, " } else { "Welcome, " });
    content.append(username.as_str());
    content.append("!\n");
    let ri = match find_room(&world.rooms, room_id) {
        Some(k) => k,
        None => 0,
    };
    content.append(world.rooms[ri].description.as_str());
    proof {
        assert(returning == db.saved.lookup(username@) is Some);
        assert(content@ == greeting(username@, returning, world.rooms@[room_index(world.rooms@, room_id)]));
    }
    let player = ArenaPlayer { id, username, state };
    let ghost e = Entity::Player(player);
    let ghost ents0 = world.entities@;
    proof { lemma_entity_index(ents0, id); }
    match find_entity(&world.entities, id) {
        Some(k) => {
            world.entities.remove(k);
            world.entities.insert(k, Entity::Player(player));
            proof { assert(world.entities@ =~= with_entity(ents0, e)); }
        },
        None => {
            world.entities.push(Entity::Player(player));
            proof { assert(world.entities@ =~= with_entity(ents0, e)); }
        },
    }
    let ghost l0 = locations.locations@;
    locations.set_room_id(id, room_id);
    proof {
        lemma_entity_index(ents0, id);
        assert forall|i: int| 0 <= i < locations.locations@.len() implies room_index(world.rooms@, (#[trigger] locations.locations@[i]).1) >= 0 by {
            if i < l0.len() {
                assert(locations.locations@[i] == l0[i]);
            }
        }
        lemma_entity_index_with(ents0, e);
    }
    let mut msgs: Vec<ServerMessage> = Vec::new();
    msgs.push(ServerMessage::GameMessage { content });
    msgs.push(ServerMessage::FullState { state });
    msgs
}

/// After an entity is put in place, it is found under its id.
proof fn lemma_entity_index_with(ents: Seq<Entity>, e: Entity)
    ensures
        entity_index(with_entity(ents, e), e.id_of()) >= 0,
        with_entity(ents, e)[entity_index(with_entity(ents, e), e.id_of())] == e,
{
    lemma_entity_index(ents, e.id_of());
    let i = entity_index(ents, e.id_of());
    let w = with_entity(ents, e);
    if i >= 0 {
        assert forall|j: int| 0 <= j < i implies w[j].id_of() != e.id_of() by {
            assert(w[j] == ents[j]);
        }
        lemma_entity_index_at(w, e.id_of(), i);
    } else {
        assert forall|j: int| 0 <= j < ents.len() implies w[j].id_of() != e.id_of() by {
            assert(w[j] == ents[j]);
        }
        lemma_entity_index_at(w, e.id_of(), ents.len() as int);
    }
}

/// The first entity with an id is where the id first occurs.
proof fn lemma_entity_index_at(ents: Seq<Entity>, id: usize, i: int)
    requires
        0 <= i < ents.len(),
        ents[i].id_of() == id,
        forall|j: int| 0 <= j < i ==> ents[j].id_of() != id,
    ensures
        entity_index(ents, id) == i,
{
    lemma_entity_index(ents, id);
    if entity_index(ents, id) >= 0 && entity_index(ents, id) != i {
        assert(ents[entity_index(ents, id)].id_of() == id);
    }
}

/// A player leaves: its state and room (the spawn room when it stands
/// nowhere) are saved under its name, and it leaves the world and the map.
/// A player no longer in the world leaves the saved data as it was.
pub fn leave(world: &mut World, locations: &mut LocationManager, db: &mut PlayerDatabase, id: usize, username: String)
    requires
        old(world).wf(),
        located_in_rooms(*old(world), old(locations).locations@),
        saved_in_rooms(*old(world), *old(db)),
        room_index(old(world).rooms@, SPAWN_ROOM_ID) >= 0,
    ensures
        final(world).wf(),
        located_in_rooms(*final(world), final(locations).locations@),
        saved_in_rooms(*final(world), *final(db)),
        final(world).rooms == old(world).rooms,
        final(world).active_combats == old(world).active_combats,
        entity_index(old(world).entities@, id) < 0 ==> final(world).entities == old(world).entities
            && final(db).saved == old(db).saved,
        entity_index(old(world).entities@, id) >= 0 ==> {
            &&& final(world).entities@ == old(world).entities@.remove(entity_index(old(world).entities@, id))
            &&& final(db).saved.lookup(username@) == Some(PersistentPlayerData {
                    state: old(world).entities@[entity_index(old(world).entities@, id)].state_of(),
                    room_id: match location_of(old(locations).locations@, id) { Some(r) => r, None => SPAWN_ROOM_ID },
                })
            &&& forall|k: Seq<char>| k != username@ ==> #[trigger] final(db).saved.lookup(k) == old(db).saved.lookup(k)
        },
        location_of(final(locations).locations@, id) is None,
        forall|o: usize| o != id ==> location_of(final(locations).locations@, o) == location_of(old(locations).locations@, o),
{
    proof { lemma_entity_index(world.entities@, id); }
    match find_entity(&world.entities, id) {
        Some(k) => {
            let e = world.entities.remove(k);
            let room_id = match locations.get_room_id(id) {
                Some(r) => r,
                None => SPAWN_ROOM_ID,
            };
            let ghost l_now = locations.locations@;
            proof {
                lemma_location_of(locations.locations@, id);
            }
            let ghost s0 = db.saved.entries@;
            let data = PersistentPlayerData { state: *e.get_state(), room_id };
            db.saved.upsert(username, data);
            proof {
                assert(room_index(world.rooms@, room_id) >= 0) by {
                    if location_of(l_now, id) is Some {
                        let k = choose|k: int| 0 <= k < l_now.len() && l_now[k] == (id, room_id);
                        assert(room_index(world.rooms@, l_now[k].1) >= 0);
                    }
                }
                assert forall|i: int| 0 <= i < db.saved.entries@.len() implies room_index(world.rooms@, (#[trigger] db.saved.entries@[i]).1.room_id) >= 0 by {
                    if db.saved.entries@[i].1 != data {
                        let j = choose|j: int| 0 <= j < s0.len() && s0[j] == db.saved.entries@[i];
                        assert(room_index(world.rooms@, s0[j].1.room_id) >= 0);
                    }
                }
            }
        },
        None => {},
    }
    let ghost l0 = locations.locations@;
    locations.remove_location(id);
    proof {
        assert forall|i: int| 0 <= i < locations.locations@.len() implies room_index(world.rooms@, (#[trigger] locations.locations@[i]).1) >= 0 by {
            let k = choose|k: int| 0 <= k < l0.len() && l0[k] == locations.locations@[i];
            assert(room_index(world.rooms@, l0[k].1) >= 0);
        }
    }
}

/// An arena message seen as plain values.
pub enum MessageView {
    GameMessage(Seq<char>),
    FullState(PlayerState),
    DerivedStatsUpdate(DerivedStats),
}

impl View for ServerMessage {
    type V = MessageView;

    open spec fn view(&self) -> MessageView {
        match self {
            ServerMessage::GameMessage { content } => MessageView::GameMessage(content@),
            ServerMessage::FullState { state } => MessageView::FullState(*state),
            ServerMessage::DerivedStatsUpdate { state } => MessageView::DerivedStatsUpdate(*state),
        }
    }
}

/// Addressed arena messages seen as plain values.
pub open spec fn addressed_view(v: Seq<(usize, ServerMessage)>) -> Seq<(usize, MessageView)> {
    v.map_values(|p: (usize, ServerMessage)| (p.0, p.1@))
}

/// An entity with its state replaced.
pub open spec fn with_state(e: Entity, st: PlayerState) -> Entity {
    match e {
        Entity::Player(p) => Entity::Player(ArenaPlayer { state: st, ..p }),
        Entity::Npc(n) => Entity::Npc(Npc { state: st, ..n }),
    }
}

/// The lines of a round to one side, when that side is a player.
pub open spec fn lines_to(e: Entity, lines: Seq<Seq<char>>) -> Seq<(usize, MessageView)> {
    if e is Player {
        lines.map_values(|l: Seq<char>| (e.id_of(), MessageView::GameMessage(l)))
    } else {
        Seq::empty()
    }
}

/// The vitals sent to a side after a hit, when that side is a player.
pub open spec fn vitals_to(e: Entity, st: PlayerState) -> Seq<(usize, MessageView)> {
    if e is Player { seq![(e.id_of(), MessageView::DerivedStatsUpdate(st.derived))] } else { Seq::empty() }
}

/// What the draws of one fight decide: the move, whether it hits, and the damage.
pub type FightDraw = (usize, bool, i32);

/// The entities, the fallen and the messages after fight `pair` with `draw`.
pub open spec fn fight_step(ents: Seq<Entity>, dead: Seq<usize>, pair: (usize, usize), draw: FightDraw)
    -> (Seq<Entity>, Seq<usize>, Seq<(usize, MessageView)>)
{
    let ia = entity_index(ents, pair.0);
    let rest = ents.remove(ia);
    let id = entity_index(rest, pair.1);
    if dead.contains(pair.0) || dead.contains(pair.1) || ia < 0 || id < 0 {
        (ents, dead, Seq::empty())
    } else {
        let a = ents[ia];
        let d = rest[id];
        let jd = if id < ia { id } else { id + 1 };
        let a1 = attacker_after(a.state_of(), d.state_of(), draw.1, draw.2 as int);
        let d1 = defender_after(d.state_of(), draw.1, draw.2 as int);
        let lines = round_messages(a.name_of(), d.name_of(), a.state_of(), d.state_of(), draw.0 as int, draw.1, draw.2 as int);
        let fell = draw.1 && d.state_of().derived.hp - draw.2 <= 0;
        (ents.update(ia, with_state(a, a1)).update(jd, with_state(d, d1)),
         if fell { dead.push(pair.1) } else { dead },
         lines_to(a, lines.0) + lines_to(d, lines.1)
            + (if draw.1 { vitals_to(a, a1) + vitals_to(d, d1) } else { Seq::empty() }))
    }
}

/// The first `n` fights of the pass, in order.
pub open spec fn fights_upto(ents: Seq<Entity>, pairs: Seq<(usize, usize)>, draws: Seq<FightDraw>, n: int)
    -> (Seq<Entity>, Seq<usize>, Seq<(usize, MessageView)>)
    decreases n,
{
    if n <= 0 {
        (ents, Seq::empty(), Seq::empty())
    } else {
        let prev = fights_upto(ents, pairs, draws, n - 1);
        let step = fight_step(prev.0, prev.1, pairs[n - 1], draws[n - 1]);
        (step.0, step.1, prev.2 + step.2)
    }
}

/// Whether the first `n` fights stay in range: each move exists, and each
/// blow fits the defender's hit points and a kill's experience fits.
pub open spec fn fights_fit(ents: Seq<Entity>, pairs: Seq<(usize, usize)>, draws: Seq<FightDraw>, n: int) -> bool
    decreases n,
{
    if n <= 0 {
        true
    } else {
        let prev = fights_upto(ents, pairs, draws, n - 1);
        let ia = entity_index(prev.0, pairs[n - 1].0);
        let rest = prev.0.remove(ia);
        let id = entity_index(rest, pairs[n - 1].1);
        &&& fights_fit(ents, pairs, draws, n - 1)
        &&& draws[n - 1].0 < UNARMED_ATTACK_COUNT
        &&& (ia >= 0 && id >= 0 ==> round_fits(prev.0[ia].state_of(), rest[id].state_of(), draws[n - 1].2 as int))
    }
}

/// The state of `e` after it takes `st`.
fn set_entity_state(e: &mut Entity, st: PlayerState)
    ensures
        *final(e) == with_state(*old(e), st),
{
    match e {
        Entity::Player(p) => { p.state = st; },
        Entity::Npc(n) => { n.state = st; },
    }
}

/// Whether the list holds `x`.
fn holds(v: &Vec<usize>, x: usize) -> (r: bool)
    ensures
        r == v@.contains(x),
{
    let mut i: usize = 0;
    while i < v.len()
        invariant
            i <= v.len(),
            forall|j: int| 0 <= j < i ==> v@[j] != x,
        decreases v.len() - i,
    {
        if v[i] == x {
            return true;
        }
        i = i + 1;
    }
    false
}

/// One fight of the pass with its draws.
fn fight_once(world: &mut World, dead: &mut Vec<usize>, pair: (usize, usize), draw: FightDraw, out: &mut Vec<(usize, ServerMessage)>)
    requires
        ({
            let ia = entity_index(old(world).entities@, pair.0);
            let rest = old(world).entities@.remove(ia);
            let id = entity_index(rest, pair.1);
            &&& draw.0 < UNARMED_ATTACK_COUNT
            &&& (ia >= 0 && id >= 0 ==> round_fits(old(world).entities@[ia].state_of(), rest[id].state_of(), draw.2 as int))
        }),
    ensures
        ({
            let step = fight_step(old(world).entities@, old(dead)@, pair, draw);
            &&& final(world).entities@ == step.0
            &&& final(dead)@ == step.1
            &&& addressed_view(final(out)@) == addressed_view(old(out)@) + step.2
        }),
        final(world).rooms == old(world).rooms,
        final(world).active_combats == old(world).active_combats,
{
    let ghost e0 = world.entities@;
    let ghost o0 = addressed_view(out@);
    proof { lemma_entity_index(e0, pair.0); }
    if holds(dead, pair.0) || holds(dead, pair.1) {
        proof { assert(addressed_view(out@) =~= o0 + Seq::<(usize, MessageView)>::empty()); }
        return;
    }
    let ia = match find_entity(&world.entities, pair.0) {
        Some(i) => i,
        None => {
            proof { assert(addressed_view(out@) =~= o0 + Seq::<(usize, MessageView)>::empty()); }
            return;
        },
    };
    let attacker = world.entities.remove(ia);
    let ghost rest = world.entities@;
    proof { lemma_entity_index(rest, pair.1); }
    let id = match find_entity(&world.entities, pair.1) {
        Some(i) => i,
        None => {
            world.entities.insert(ia, attacker);
            proof {
                assert(world.entities@ =~= e0);
                assert(addressed_view(out@) =~= o0 + Seq::<(usize, MessageView)>::empty());
            }
            return;
        },
    };
    let mut a = ArenaPlayer { id: attacker.get_id(), username: String::from_str(attacker.get_name()), state: *attacker.get_state() };
    let mut d = ArenaPlayer {
        id: world.entities[id].get_id(),
        username: String::from_str(world.entities[id].get_name()),
        state: *world.entities[id].get_state(),
    };
    let ghost a_st0 = a.state;
    let ghost d_st0 = d.state;
    let outcome = resolve_attack_round_with(&mut a, &mut d, draw.0, draw.1, draw.2);
    let mut attacker = attacker;
    set_entity_state(&mut attacker, a.state);
    let mut defender = world.entities.remove(id);
    set_entity_state(&mut defender, d.state);
    world.entities.insert(id, defender);
    world.entities.insert(ia, attacker);
    let ghost jd: int = if id < ia { id as int } else { id + 1 };
    proof {
        let a_e = e0[ia as int];
        let d_e = rest[id as int];
        assert(d_e == e0[jd]);
        assert(world.entities@ =~= e0.update(ia as int, with_state(a_e, a.state)).update(jd, with_state(d_e, d.state)));
    }
    let RoundOutcome { result, to_attacker, to_defender } = outcome;
    let n = world.entities.len();
    proof { assert(id + 1 < n); }
    let jd_exec: usize = if id < ia { id } else { id + 1 };
    let a_is_player = world.entities[ia].as_player().is_some();
    let d_is_player = world.entities[jd_exec].as_player().is_some();
    let ghost mid = addressed_view(out@);
    let ghost a_e = e0[ia as int];
    let ghost d_e = rest[id as int];
    let ghost lines = round_messages(a_e.name_of(), d_e.name_of(), a_e.state_of(), d_e.state_of(), draw.0 as int, draw.1, draw.2 as int);
    proof {
        assert(a_is_player == a_e is Player);
        assert(d_is_player == d_e is Player);
        assert(a_e.id_of() == pair.0);
        assert(d_e.id_of() == pair.1);
        if a_is_player {
            assert(to_attacker@.map_values(|l: String| (pair.0, MessageView::GameMessage(l@))) =~= lines_to(a_e, lines.0));
        }
        if d_is_player {
            assert(to_defender@.map_values(|l: String| (pair.1, MessageView::GameMessage(l@))) =~= lines_to(d_e, lines.1));
        }
    }
    if a_is_player {
        push_lines(out, pair.0, &to_attacker);
    }
    if d_is_player {
        push_lines(out, pair.1, &to_defender);
    }
    proof {
        assert(addressed_view(out@) =~= o0 + lines_to(a_e, lines.0) + lines_to(d_e, lines.1));
    }
    let ghost before_vitals = addressed_view(out@);
    if result.is_hit {
        if a_is_player {
            out.push((pair.0, ServerMessage::DerivedStatsUpdate { state: a.state.derived }));
            proof { assert(addressed_view(out@) =~= before_vitals + vitals_to(a_e, a.state)); }
        } else {
            proof { assert(addressed_view(out@) =~= before_vitals + vitals_to(a_e, a.state)); }
        }
        let ghost mid2 = addressed_view(out@);
        if d_is_player {
            out.push((pair.1, ServerMessage::DerivedStatsUpdate { state: d.state.derived }));
            proof { assert(addressed_view(out@) =~= mid2 + vitals_to(d_e, d.state)); }
        } else {
            proof { assert(addressed_view(out@) =~= mid2 + vitals_to(d_e, d.state)); }
        }
    }
    if result.defender_is_dead {
        dead.push(pair.1);
    }
    proof {
        let step = fight_step(e0, old(dead)@, pair, draw);
        assert(addressed_view(out@) =~= o0 + step.2);
    }
}

/// Adds each line as a text message to `to`.
fn push_lines(out: &mut Vec<(usize, ServerMessage)>, to: usize, lines: &Vec<String>)
    ensures
        addressed_view(final(out)@) == addressed_view(old(out)@)
            + lines@.map_values(|l: String| (to, MessageView::GameMessage(l@))),
{
    let ghost o0 = addressed_view(out@);
    let mut i: usize = 0;
    while i < lines.len()
        invariant
            i <= lines.len(),
            addressed_view(out@) == o0 + lines@.take(i as int).map_values(|l: String| (to, MessageView::GameMessage(l@))),
        decreases lines.len() - i,
    {
        let ghost before = addressed_view(out@);
        let ghost ov = out@;
        out.push((to, ServerMessage::GameMessage { content: lines[i].clone() }));
        proof {
            assert(out@ == ov.push(out@.last()));
            assert(addressed_view(out@) =~= before.push((to, MessageView::GameMessage(lines@[i as int]@))));
            assert(lines@.take(i + 1).map_values(|l: String| (to, MessageView::GameMessage(l@)))
                =~= lines@.take(i as int).map_values(|l: String| (to, MessageView::GameMessage(l@))).push((to, MessageView::GameMessage(lines@[i as int]@))));
            assert(addressed_view(out@) =~= o0 + lines@.take(i + 1).map_values(|l: String| (to, MessageView::GameMessage(l@))));
        }
        i = i + 1;
    }
    proof { assert(lines@.take(i as int) =~= lines@); }
}

/// The fights still under way once the fallen are out: those where neither
/// side fell.
pub open spec fn kept_combats(pairs: Seq<(usize, usize)>, dead: Seq<usize>) -> Seq<(usize, usize)>
    decreases pairs.len(),
{
    if pairs.len() == 0 {
        Seq::empty()
    } else {
        let rest = kept_combats(pairs.drop_last(), dead);
        let p = pairs.last();
        if !dead.contains(p.0) && !dead.contains(p.1) { rest.push(p) } else { rest }
    }
}

/// The entities once each fallen one, in order, is taken out.
pub open spec fn without_dead(ents: Seq<Entity>, dead: Seq<usize>) -> Seq<Entity>
    decreases dead.len(),
{
    if dead.len() == 0 {
        ents
    } else {
        let prev = without_dead(ents, dead.drop_last());
        let i = entity_index(prev, dead.last());
        if i >= 0 { prev.remove(i) } else { prev }
    }
}

/// Takes the fallen out: their fights end, they leave the world and the map.
fn bury_dead(world: &mut World, locations: &mut LocationManager, dead: &Vec<usize>)
    requires
        old(world).wf(),
        located_in_rooms(*old(world), old(locations).locations@),
    ensures
        final(world).wf(),
        located_in_rooms(*final(world), final(locations).locations@),
        final(world).rooms == old(world).rooms,
        final(world).active_combats@ == kept_combats(old(world).active_combats@, dead@),
        final(world).entities@ == without_dead(old(world).entities@, dead@),
        forall|o: usize| #[trigger] location_of(final(locations).locations@, o)
            == (if dead@.contains(o) { None } else { location_of(old(locations).locations@, o) }),
{
    let ghost pairs = world.active_combats@;
    let mut kept: Vec<(usize, usize)> = Vec::new();
    let mut i: usize = 0;
    proof { assert(pairs.take(0) =~= Seq::<(usize, usize)>::empty()); }
    while i < world.active_combats.len()
        invariant
            i <= world.active_combats.len(),
            world.active_combats@ == pairs,
            kept@ == kept_combats(pairs.take(i as int), dead@),
        decreases world.active_combats.len() - i,
    {
        proof { assert(pairs.take(i + 1).drop_last() =~= pairs.take(i as int)); }
        let p = world.active_combats[i];
        if !holds(dead, p.0) && !holds(dead, p.1) {
            kept.push(p);
        }
        i = i + 1;
    }
    proof { assert(pairs.take(i as int) =~= pairs); }
    world.active_combats = kept;
    let ghost ents0 = world.entities@;
    let ghost l0 = locations.locations@;
    let mut k: usize = 0;
    proof {
        assert(dead@.take(0) =~= Seq::<usize>::empty());
    }
    while k < dead.len()
        invariant
            k <= dead.len(),
            world.wf(),
            located_in_rooms(*world, locations.locations@),
            world.rooms == old(world).rooms,
            world.active_combats@ == kept_combats(pairs, dead@),
            world.entities@ == without_dead(ents0, dead@.take(k as int)),
            forall|o: usize| #[trigger] location_of(locations.locations@, o)
                == (if dead@.take(k as int).contains(o) { None } else { location_of(l0, o) }),
        decreases dead.len() - k,
    {
        let id = dead[k];
        proof {
            assert(dead@.take(k + 1).drop_last() =~= dead@.take(k as int));
            assert(dead@.take(k + 1).last() == id);
            lemma_entity_index(world.entities@, id);
        }
        match find_entity(&world.entities, id) {
            Some(j) => { world.entities.remove(j); },
            None => {},
        }
        let ghost lk = locations.locations@;
        locations.remove_location(id);
        proof {
            assert forall|o: usize| #[trigger] location_of(locations.locations@, o)
                == (if dead@.take(k + 1).contains(o) { None } else { location_of(l0, o) }) by {
                if o == id {
                    assert(dead@.take(k + 1)[k as int] == id);
                } else {
                    let t1 = dead@.take(k + 1);
                    if t1.contains(o) {
                        let m = choose|m: int| 0 <= m < t1.len() && #[trigger] t1[m] == o;
                        assert(m < k);
                        assert(dead@.take(k as int)[m] == o);
                    } else {
                        assert forall|m: int| 0 <= m < dead@.take(k as int).len() implies dead@.take(k as int)[m] != o by {
                            assert(dead@.take(k + 1)[m] == dead@.take(k as int)[m]);
                        }
                    }
                }
            }
            assert forall|m: int| 0 <= m < locations.locations@.len() implies room_index(world.rooms@, (#[trigger] locations.locations@[m]).1) >= 0 by {
                let q = choose|q: int| 0 <= q < lk.len() && lk[q] == locations.locations@[m];
                assert(room_index(world.rooms@, lk[q].1) >= 0);
            }
        }
        k = k + 1;
    }
    proof { assert(dead@.take(k as int) =~= dead@); }
}

/// A prefix of fights that fit, fits.
proof fn lemma_fights_fit_prefix(ents: Seq<Entity>, pairs: Seq<(usize, usize)>, draws: Seq<FightDraw>, n: int, k: int)
    requires
        0 <= k <= n,
        fights_fit(ents, pairs, draws, n),
    ensures
        fights_fit(ents, pairs, draws, k),
    decreases n - k,
{
    if k < n {
        lemma_fights_fit_prefix(ents, pairs, draws, n - 1, k);
    }
}

/// The fights of the arena's loop with their draws given, then the fallen
/// taken out: the fights where one side fell end, and the fallen leave the
/// world and the map.
pub fn combat_pass_with(world: &mut World, locations: &mut LocationManager, draws: &Vec<FightDraw>) -> (out: Vec<(usize, ServerMessage)>)
    requires
        old(world).wf(),
        located_in_rooms(*old(world), old(locations).locations@),
        draws@.len() == old(world).active_combats@.len(),
        fights_fit(old(world).entities@, old(world).active_combats@, draws@, draws@.len() as int),
    ensures
        pass_result(*old(world), old(locations).locations@, draws@, *final(world), final(locations).locations@, addressed_view(out@)),
        final(world).wf(),
        located_in_rooms(*final(world), final(locations).locations@),
{
    let ghost ents0 = world.entities@;
    let ghost pairs = world.active_combats@;
    let mut dead: Vec<usize> = Vec::new();
    let mut out: Vec<(usize, ServerMessage)> = Vec::new();
    let mut k: usize = 0;
    proof { assert(addressed_view(out@) =~= Seq::<(usize, MessageView)>::empty()); }
    while k < draws.len()
        invariant
            k <= draws@.len(),
            draws@.len() == pairs.len(),
            world.wf(),
            world.rooms == old(world).rooms,
            world.active_combats@ == pairs,
            located_in_rooms(*world, locations.locations@),
            locations.locations@ == old(locations).locations@,
            fights_fit(ents0, pairs, draws@, draws@.len() as int),
            world.entities@ == fights_upto(ents0, pairs, draws@, k as int).0,
            dead@ == fights_upto(ents0, pairs, draws@, k as int).1,
            addressed_view(out@) == fights_upto(ents0, pairs, draws@, k as int).2,
        decreases draws@.len() - k,
    {
        proof { lemma_fights_fit_prefix(ents0, pairs, draws@, draws@.len() as int, k + 1); }
        let pair = world.active_combats[k];
        fight_once(world, &mut dead, pair, draws[k], &mut out);
        k = k + 1;
    }
    bury_dead(world, locations, &dead);
    out
}

/// Whether `w1`, `locs1` and `msgs` are the arena after the fights of `w0`
/// with `draws` and the fallen taken out.
pub open spec fn pass_result(w0: World, locs0: Seq<(usize, usize)>, draws: Seq<FightDraw>, w1: World, locs1: Seq<(usize, usize)>, msgs: Seq<(usize, MessageView)>) -> bool {
    let r = fights_upto(w0.entities@, w0.active_combats@, draws, draws.len() as int);
    &&& w1.rooms == w0.rooms
    &&& w1.entities@ == without_dead(r.0, r.1)
    &&& w1.active_combats@ == kept_combats(w0.active_combats@, r.1)
    &&& forall|o: usize| #[trigger] location_of(locs1, o) == (if r.1.contains(o) { None } else { location_of(locs0, o) })
    &&& msgs == r.2
}

/// The largest strength the arena's loop takes.
pub const STRENGTH_LIMIT: i32 = 1_000_000;

/// A fighter whose numbers keep a pass in range: hit points not below 0, a
/// strength from 1 to the limit, and room for `room` more experience.
pub open spec fn fighter_sane(st: PlayerState, room: int) -> bool {
    &&& st.derived.hp >= 0
    &&& 1 <= st.base.strength <= STRENGTH_LIMIT
    &&& st.progression.experience + room <= u64::MAX
}

/// Every entity keeps a pass in range with room for `room` more experience.
pub open spec fn arena_sane(ents: Seq<Entity>, room: int) -> bool {
    forall|i: int| 0 <= i < ents.len() ==> fighter_sane(#[trigger] ents[i].state_of(), room)
}

/// Whether a draw fits the fight it is for: the move exists, and a hit's
/// damage lies in the range of the attacker's strength; a miss deals none.
pub open spec fn draw_fits(ents: Seq<Entity>, pair: (usize, usize), draw: FightDraw) -> bool {
    let ia = entity_index(ents, pair.0);
    &&& draw.0 < UNARMED_ATTACK_COUNT
    &&& (!draw.1 ==> draw.2 == 0)
    &&& (draw.1 && ia >= 0 ==> exists|x: int| damage_floor(ents[ia].state_of().base.strength as int) <= x
            < damage_ceiling(ents[ia].state_of().base.strength as int)
            && draw.2 == #[trigger] crate::world::combat::at_least_one(x))
}

/// Whether each of the first `n` draws fits its fight.
pub open spec fn draws_fit(ents: Seq<Entity>, pairs: Seq<(usize, usize)>, draws: Seq<FightDraw>, n: int) -> bool
    decreases n,
{
    if n <= 0 {
        true
    } else {
        draws_fit(ents, pairs, draws, n - 1) && draw_fits(fights_upto(ents, pairs, draws, n - 1).0, pairs[n - 1], draws[n - 1])
    }
}

/// The state an entity takes is the state it then has.
proof fn lemma_with_state(e: Entity, st: PlayerState)
    ensures
        with_state(e, st).state_of() == st,
        with_state(e, st).id_of() == e.id_of(),
{
}

/// A fight never leaves a fighter with negative hit points nor changes a
/// strength, and gives at most one kill's experience: the arena stays sane
/// with one kill's room for experience less.
pub proof fn lemma_fight_keeps_sane(ents: Seq<Entity>, dead: Seq<usize>, pair: (usize, usize), draw: FightDraw, room: int)
    requires
        arena_sane(ents, room),
        room >= KILL_EXPERIENCE,
        draw_fits(ents, pair, draw),
    ensures
        arena_sane(fight_step(ents, dead, pair, draw).0, room - KILL_EXPERIENCE),
{
    let ia = entity_index(ents, pair.0);
    let rest = ents.remove(ia);
    let id = entity_index(rest, pair.1);
    lemma_entity_index(ents, pair.0);
    if !(dead.contains(pair.0) || dead.contains(pair.1) || ia < 0 || id < 0) {
        lemma_entity_index(rest, pair.1);
        let a = ents[ia];
        let d = rest[id];
        let jd = if id < ia { id } else { id + 1 };
        assert(d == ents[jd]);
        let a1 = attacker_after(a.state_of(), d.state_of(), draw.1, draw.2 as int);
        let d1 = defender_after(d.state_of(), draw.1, draw.2 as int);
        lemma_with_state(a, a1);
        lemma_with_state(d, d1);
        let e1 = ents.update(ia, with_state(a, a1)).update(jd, with_state(d, d1));
        assert(fighter_sane(a.state_of(), room));
        assert(fighter_sane(d.state_of(), room));
        assert forall|i: int| 0 <= i < e1.len() implies fighter_sane(#[trigger] e1[i].state_of(), room - KILL_EXPERIENCE) by {
            if i != ia && i != jd {
                assert(e1[i] == ents[i]);
                assert(fighter_sane(ents[i].state_of(), room));
            }
        }
    } else {
        assert forall|i: int| 0 <= i < ents.len() implies fighter_sane(#[trigger] ents[i].state_of(), room - KILL_EXPERIENCE) by {
            assert(fighter_sane(ents[i].state_of(), room));
        }
    }
}

/// The first `n` fights depend on the first `n` draws only.
proof fn lemma_fights_same_draws(ents: Seq<Entity>, pairs: Seq<(usize, usize)>, d1: Seq<FightDraw>, d2: Seq<FightDraw>, n: int)
    requires
        0 <= n <= d1.len(),
        n <= d2.len(),
        forall|i: int| 0 <= i < n ==> d1[i] == d2[i],
    ensures
        fights_upto(ents, pairs, d1, n) == fights_upto(ents, pairs, d2, n),
        draws_fit(ents, pairs, d1, n) == draws_fit(ents, pairs, d2, n),
    decreases n,
{
    if n > 0 {
        lemma_fights_same_draws(ents, pairs, d1, d2, n - 1);
    }
}

/// The fights of the arena's loop, each with a move drawn at random, a hit
/// drawn with the chance of `calculate_hit_chance`, and on a hit a damage
/// drawn by `calculate_physical_damage`; then the fallen are taken out.
pub fn combat_pass(world: &mut World, locations: &mut LocationManager) -> (out: Vec<(usize, ServerMessage)>)
    requires
        old(world).wf(),
        located_in_rooms(*old(world), old(locations).locations@),
        arena_sane(old(world).entities@, KILL_EXPERIENCE * old(world).active_combats@.len()),
    ensures
        final(world).wf(),
        located_in_rooms(*final(world), final(locations).locations@),
        exists|draws: Seq<FightDraw>| {
            &&& draws.len() == old(world).active_combats@.len()
            &&& draws_fit(old(world).entities@, old(world).active_combats@, draws, draws.len() as int)
            &&& #[trigger] pass_result(*old(world), old(locations).locations@, draws, *final(world),
                    final(locations).locations@, addressed_view(out@))
        },
{
    let ghost ents0 = world.entities@;
    let ghost pairs = world.active_combats@;
    let n = world.active_combats.len();
    let mut draws: Vec<FightDraw> = Vec::new();
    let mut dead: Vec<usize> = Vec::new();
    let mut out: Vec<(usize, ServerMessage)> = Vec::new();
    let mut k: usize = 0;
    let picks: [usize; 3] = [0, 1, 2];
    proof {
        assert(addressed_view(out@) =~= Seq::<(usize, MessageView)>::empty());
        assert(picks@ == seq![0usize, 1, 2]);
    }
    while k < n
        invariant
            n == pairs.len(),
            k <= n,
            draws@.len() == k,
            picks@ == seq![0usize, 1, 2],
            world.wf(),
            world.rooms == old(world).rooms,
            world.active_combats@ == pairs,
            located_in_rooms(*world, locations.locations@),
            locations.locations@ == old(locations).locations@,
            arena_sane(world.entities@, KILL_EXPERIENCE * (n - k)),
            draws_fit(ents0, pairs, draws@, k as int),
            world.entities@ == fights_upto(ents0, pairs, draws@, k as int).0,
            dead@ == fights_upto(ents0, pairs, draws@, k as int).1,
            addressed_view(out@) == fights_upto(ents0, pairs, draws@, k as int).2,
        decreases n - k,
    {
        let pair = world.active_combats[k];
        let flavor = match choose_from(&picks) {
            Some(f) => f,
            None => 0,
        };
        let ghost cur = world.entities@;
        proof { lemma_entity_index(cur, pair.0); }
        let (hit, damage) = match find_entity(&world.entities, pair.0) {
            Some(ia) => {
                let chance: i64 = match find_entity(&world.entities, pair.1) {
                    Some(j) => {
                        proof { lemma_entity_index(cur, pair.1); }
                        calculate_hit_chance(&world.entities[ia], &world.entities[j])
                    },
                    None => 0,
                };
                let hit = roll_in(0, 999) < chance;
                if hit {
                    let st = *world.entities[ia].get_state();
                    proof { assert(fighter_sane(cur[ia as int].state_of(), KILL_EXPERIENCE * (n - k))); }
                    let striker = ArenaPlayer { id: pair.0, username: String::new(), state: st };
                    (true, calculate_physical_damage(&striker))
                } else {
                    (false, 0i32)
                }
            },
            None => (false, 0i32),
        };
        let draw: FightDraw = (flavor, hit, damage);
        proof {
            assert(draw_fits(cur, pair, draw));
            let ia = entity_index(cur, pair.0);
            let rest = cur.remove(ia);
            let id = entity_index(rest, pair.1);
            lemma_entity_index(rest, pair.1);
            if ia >= 0 && id >= 0 {
                let jd = if id < ia { id } else { id + 1 };
                assert(rest[id] == cur[jd]);
                assert(fighter_sane(cur[jd].state_of(), KILL_EXPERIENCE * (n - k)));
                assert(fighter_sane(cur[ia].state_of(), KILL_EXPERIENCE * (n - k)));
                if hit {
                    let x = choose|x: int| damage_floor(cur[ia].state_of().base.strength as int) <= x
                        < damage_ceiling(cur[ia].state_of().base.strength as int)
                        && damage == #[trigger] crate::world::combat::at_least_one(x);
                    assert(damage_ceiling(cur[ia].state_of().base.strength as int) <= 1_300_000);
                }
                assert(round_fits(cur[ia].state_of(), rest[id].state_of(), damage as int));
            }
            lemma_fight_keeps_sane(cur, dead@, pair, draw, KILL_EXPERIENCE * (n - k));
        }
        let ghost d0 = draws@;
        fight_once(world, &mut dead, pair, draw, &mut out);
        draws.push(draw);
        proof {
            lemma_fights_same_draws(ents0, pairs, d0, draws@, k as int);
            assert(draws@[k as int] == draw);
            assert(KILL_EXPERIENCE * (n - k) - KILL_EXPERIENCE == KILL_EXPERIENCE * (n - (k + 1)));
        }
        k = k + 1;
    }
    let ghost fought = fights_upto(ents0, pairs, draws@, n as int);
    bury_dead(world, locations, &dead);
    proof {
        assert(pass_result(*old(world), old(locations).locations@, draws@, *world, locations.locations@, addressed_view(out@)));
    }
    out
}

} // verus!
