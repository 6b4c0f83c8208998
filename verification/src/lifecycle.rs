//! The life of a connection: a new player takes the smallest free id and
//! appears at the starting altar, logs in under a user id (a newcomer gets
//! the tutorial quest), is seen leaving and entering rooms, recovers at
//! every heartbeat, and leaves the world when the connection closes.

use vstd::prelude::*;
use vstd::set_lib::{lemma_int_range, lemma_len_subset, set_int_range};
use crate::game::{GameState, PlayerSession, ServerMessage, MessageView, session_index, lemma_session_index};
use crate::styled::{Text, Style, Color, color, color_bold, spec_color, spec_color_bold, spec_plain_style, same_text};
use crate::ui::{build_welcome_message, get_full_room_description, welcome_msgs, room_description};
use crate::world::world_player::{Player, PlayerQuestStatus, QuestStatusView, status_views, min_int, counts_view};
use crate::world::world_state::{loc_of, PlayerLocation, WorldState};

verus! {

/// The room where every new connection starts.
pub const STARTING_ROOM: &'static str = "genesis_altar";

/// The quest a newcomer receives at login.
pub const TUTORIAL_QUEST: &'static str = "tutorial_1";

/// Whether some session belongs to player `id`.
pub open spec fn id_taken(ss: Seq<PlayerSession>, id: int) -> bool {
    exists|i: int| 0 <= i < ss.len() && ss[i].player.id as int == id
}

/// If every number below `n` is the id of one of the sessions, there are at
/// least `n` sessions.
proof fn lemma_ids_below(ss: Seq<PlayerSession>, n: int)
    requires
        0 <= n,
        forall|k: int| 0 <= k < n ==> #[trigger] id_taken(ss, k),
    ensures
        n <= ss.len(),
{
    let ids = ss.map_values(|s: PlayerSession| s.player.id as int);
    lemma_int_range(0, n);
    ids.lemma_cardinality_of_set();
    assert(set_int_range(0, n).subset_of(ids.to_set())) by {
        assert forall|k: int| set_int_range(0, n).contains(k) implies ids.to_set().contains(k) by {
            assert(id_taken(ss, k));
            let i = choose|i: int| 0 <= i < ss.len() && ss[i].player.id as int == k;
            assert(ids[i] == k);
        }
    }
    lemma_len_subset(set_int_range(0, n), ids.to_set());
}

/// Opens a session for a new connection: the smallest id no session has,
/// a fresh nameless character, not logged in, placed at the starting altar.
pub fn connect(state: &mut GameState) -> (id: u64)
    requires
        old(state).wf(),
        old(state).player_sessions@.len() < u64::MAX,
    ensures
        final(state).wf(),
        !id_taken(old(state).player_sessions@, id as int),
        forall|k: int| 0 <= k < id ==> #[trigger] id_taken(old(state).player_sessions@, k),
        final(state).player_sessions@.len() == old(state).player_sessions@.len() + 1,
        final(state).player_sessions@.take(old(state).player_sessions@.len() as int) == old(state).player_sessions@,
        ({
            let s = final(state).player_sessions@.last();
            &&& s.user_id is None
            &&& s.player.id == id
            &&& s.player.name@ == Seq::<char>::empty()
            &&& s.player.root_id@ == "凡根"@
            &&& s.player.fresh()
        }),
        loc_of(final(state).world_state.dynamic_data.players@, id) matches Some(l)
            && l.room_id@ == STARTING_ROOM@ && l.user_name is None,
        forall|o: u64| o != id ==> loc_of(final(state).world_state.dynamic_data.players@, o)
            == loc_of(old(state).world_state.dynamic_data.players@, o),
        final(state).world_state.dynamic_data.npcs == old(state).world_state.dynamic_data.npcs,
        final(state).world_state.dynamic_data.room_items == old(state).world_state.dynamic_data.room_items,
        final(state).world_state.static_data == old(state).world_state.static_data,
{
    let ghost ss = state.player_sessions@;
    let mut new_id: u64 = 0;
    loop
        invariant
            state.player_sessions@ == ss,
            ss.len() < u64::MAX,
            new_id <= ss.len(),
            forall|k: int| 0 <= k < new_id ==> #[trigger] id_taken(ss, k),
        ensures
            state.player_sessions@ == ss,
            new_id <= ss.len(),
            forall|k: int| 0 <= k < new_id ==> #[trigger] id_taken(ss, k),
            !id_taken(ss, new_id as int),
        decreases ss.len() - new_id,
    {
        match state.find_session(new_id) {
            None => {
                proof {
                    lemma_session_index(ss, new_id);
                    if id_taken(ss, new_id as int) {
                        let i = choose|i: int| 0 <= i < ss.len() && ss[i].player.id as int == new_id as int;
                        assert(ss[i].player.id != new_id);
                    }
                }
                break;
            },
            Some(i) => {
                proof {
                    lemma_session_index(ss, new_id);
                    assert(ss[i as int].player.id as int == new_id as int);
                    assert(id_taken(ss, new_id as int));
                    lemma_ids_below(ss, new_id + 1);
                }
                new_id = new_id + 1;
            },
        }
    }
    let player = Player::new(new_id, String::new());
    state.player_sessions.push(PlayerSession { player, user_id: None });
    proof {
        let s1 = state.player_sessions@;
        assert(s1.take(ss.len() as int) =~= ss);
        assert forall|a: int, b: int| 0 <= a < b < s1.len() implies s1[a].player.id != s1[b].player.id by {
            if b == ss.len() {
                assert(s1[a] == ss[a]);
                if ss[a].player.id == new_id {
                    assert(id_taken(ss, new_id as int));
                }
            } else {
                assert(s1[a] == ss[a] && s1[b] == ss[b]);
            }
        }
    }
    state.world_state.move_player_to_room(new_id, STARTING_ROOM, None);
    new_id
}

/// The tutorial quest as a newcomer holds it: at its first step, no kills.
pub open spec fn tutorial_status() -> QuestStatusView {
    QuestStatusView { quest_id: TUTORIAL_QUEST@, current_step: 0, is_completed: false, kill_counts: Seq::empty() }
}

/// Whether a player logging in gets the tutorial: no quest taken or done yet,
/// and the world has the tutorial quest.
pub open spec fn gets_tutorial(w: WorldState, p: Player) -> bool {
    p.active_quests@.len() == 0 && p.completed_quests@.len() == 0 && w.static_data.quests.has(TUTORIAL_QUEST@)
}

/// The greeting at login: the welcome banner, the starting altar and, for a
/// newcomer, the notice of the tutorial quest.
pub open spec fn login_greeting(w: WorldState, tutorial: bool) -> Seq<(Seq<char>, Style)> {
    welcome_msgs() + seq![("\n\n"@, spec_plain_style())]
        + room_description(w.static_data.rooms.lookup(STARTING_ROOM@), Seq::empty(), Seq::empty(), Seq::empty())
        + (if tutorial {
            seq![("\n"@, spec_plain_style()),
                ("[任务提示] 你收到了一项新任务：初入凡尘。输入 'qs' 可随时查看任务进度。"@, spec_color_bold(Color::Yellow))]
        } else {
            seq![]
        })
}

/// Whether `l1` is location `l0` under the name `name`.
pub open spec fn renamed_at(l0: PlayerLocation, l1: Option<PlayerLocation>, name: Seq<char>) -> bool {
    match l1 {
        Some(l) => l.room_id == l0.room_id && (match l.user_name { Some(n) => n@ == name, None => false }),
        None => false,
    }
}

/// The character after login under `user_id` at time `now`.
pub open spec fn logged_in(p0: Player, p1: Player, user_id: Seq<char>, now: u64, tutorial: bool) -> bool {
    &&& p1 == (Player { name: p1.name, last_input_time: now, active_quests: p1.active_quests, ..p0 })
    &&& p1.name@ == user_id
    &&& status_views(p1.active_quests@) == (if tutorial {
            status_views(p0.active_quests@).push(tutorial_status())
        } else {
            status_views(p0.active_quests@)
        })
}

/// Logs player `player_id` in as `user_id` at time `now`: the session and
/// the character take the name, the input time is noted, the world knows
/// the player by that name, and a newcomer gets the tutorial quest. The
/// greeting is returned; a player without a session gets none and nothing
/// changes.
pub fn login(state: &mut GameState, player_id: u64, user_id: String, now: u64) -> (m: Option<ServerMessage>)
    requires
        old(state).wf(),
    ensures
        final(state).wf(),
        session_index(old(state).player_sessions@, player_id) < 0 ==> *final(state) == *old(state) && m is None,
        session_index(old(state).player_sessions@, player_id) >= 0 ==> ({
            let i = session_index(old(state).player_sessions@, player_id);
            let s0 = old(state).player_sessions@[i];
            let s1 = final(state).player_sessions@[i];
            let tutorial = gets_tutorial(old(state).world_state, s0.player);
            &&& final(state).player_sessions@.len() == old(state).player_sessions@.len()
            &&& forall|j: int| 0 <= j < old(state).player_sessions@.len() && j != i
                ==> final(state).player_sessions@[j] == old(state).player_sessions@[j]
            &&& s1.user_id matches Some(u) && u@ == user_id@
            &&& logged_in(s0.player, s1.player, user_id@, now, tutorial)
            &&& (loc_of(old(state).world_state.dynamic_data.players@, player_id) matches Some(l) ==>
                renamed_at(l, loc_of(final(state).world_state.dynamic_data.players@, player_id), user_id@))
            &&& (loc_of(old(state).world_state.dynamic_data.players@, player_id) is None ==>
                final(state).world_state == old(state).world_state)
            &&& forall|o: u64| o != player_id ==> loc_of(final(state).world_state.dynamic_data.players@, o)
                == loc_of(old(state).world_state.dynamic_data.players@, o)
            &&& final(state).world_state.dynamic_data.npcs == old(state).world_state.dynamic_data.npcs
            &&& final(state).world_state.dynamic_data.room_items == old(state).world_state.dynamic_data.room_items
            &&& final(state).world_state.static_data == old(state).world_state.static_data
            &&& m matches Some(msg) && msg@ == MessageView::Description(login_greeting(old(state).world_state, tutorial))
        }),
{
    let idx = match state.find_session(player_id) {
        Some(i) => i,
        None => return None,
    };
    proof { lemma_session_index(state.player_sessions@, player_id); }
    let ghost ss = state.player_sessions@;
    let ghost w0 = state.world_state;
    let mut session = state.player_sessions.remove(idx);
    let ghost p0 = session.player;
    session.user_id = Some(user_id.clone());
    session.player.name = user_id.clone();
    session.player.last_input_time = now;
    state.world_state.update_player_name(player_id, user_id);
    let mut tutorial_given = false;
    if session.player.active_quests.len() == 0 && session.player.completed_quests.len() == 0 {
        if state.world_state.static_data.quests.contains_key(TUTORIAL_QUEST) {
            let status = PlayerQuestStatus {
                quest_id: String::from_str(TUTORIAL_QUEST),
                current_step: 0,
                is_completed: false,
                kill_counts: Vec::new(),
            };
            let ghost before = session.player.active_quests@;
            proof {
                assert(counts_view(status.kill_counts@) =~= Seq::<(Seq<char>, u32)>::empty());
                assert(status@ == tutorial_status());
            }
            session.player.active_quests.push(status);
            proof {
                assert(status_views(session.player.active_quests@) =~= status_views(before).push(tutorial_status()));
            }
            tutorial_given = true;
        }
    }
    state.player_sessions.insert(idx, session);
    proof {
        let s1 = state.player_sessions@;
        assert(s1 =~= ss.update(idx as int, s1[idx as int]));
        assert forall|a: int, b: int| 0 <= a < b < s1.len() implies s1[a].player.id != s1[b].player.id by {
            assert(s1[idx as int].player.id == ss[idx as int].player.id);
            if a != idx as int && b != idx as int {
                assert(s1[a] == ss[a] && s1[b] == ss[b]);
            } else if a == idx as int {
                assert(s1[b] == ss[b]);
            } else {
                assert(s1[a] == ss[a]);
            }
        }
        assert(tutorial_given == gets_tutorial(w0, p0));
        let ps0 = w0.dynamic_data.players@;
        let ps1 = state.world_state.dynamic_data.players@;
        crate::world::world_state::lemma_loc_index(ps0, player_id);
        let k = crate::world::world_state::loc_index(ps0, player_id);
        if k >= 0 {
            assert(ps1[k].0 == player_id);
            crate::world::world_state::lemma_loc_of_entry(ps1, player_id, k);
            assert forall|o: u64| o != player_id implies loc_of(ps1, o) == loc_of(ps0, o) by {
                if exists|j: int| 0 <= j < ps0.len() && ps0[j].0 == o {
                    let j = choose|j: int| 0 <= j < ps0.len() && ps0[j].0 == o;
                    crate::world::world_state::lemma_loc_of_entry(ps0, o, j);
                    assert(j != k);
                    assert(ps1[j] == ps0[j]);
                    crate::world::world_state::lemma_loc_of_entry(ps1, o, j);
                } else {
                    crate::world::world_state::lemma_loc_of_absent(ps0, o);
                    assert forall|j: int| 0 <= j < ps1.len() implies ps1[j].0 != o by {
                        if j != k { assert(ps1[j] == ps0[j]); }
                    }
                    crate::world::world_state::lemma_loc_of_absent(ps1, o);
                }
            }
        }
    }
    let mut greeting = build_welcome_message();
    greeting.push_plain("\n\n");
    let no_players: Vec<String> = Vec::new();
    let no_npcs: Vec<crate::npc::Npc> = Vec::new();
    let no_items: Vec<u32> = Vec::new();
    proof {
        assert(crate::command::views_of(no_players@) =~= Seq::<Seq<char>>::empty());
        assert(crate::ui::npc_names(no_npcs@) =~= Seq::<Seq<char>>::empty());
        assert(crate::ui::item_names(no_items@, w0.static_data.item_prototypes@) =~= Seq::<Seq<char>>::empty());
    }
    let room = get_full_room_description(STARTING_ROOM, &state.world_state, no_players, no_npcs, no_items);
    greeting.append(room);
    if tutorial_given {
        greeting.push_plain("\n");
        greeting.push("[任务提示] 你收到了一项新任务：初入凡尘。输入 'qs' 可随时查看任务进度。", color_bold(Color::Yellow));
    }
    proof {
        assert(greeting@ =~= login_greeting(w0, tutorial_given));
    }
    Some(ServerMessage::Description { payload: greeting })
}

/// Closes the session of player `player_id`: the session goes, and the
/// player leaves the world.
pub fn disconnect(state: &mut GameState, player_id: u64)
    requires
        old(state).wf(),
    ensures
        final(state).wf(),
        forall|j: int| 0 <= j < final(state).player_sessions@.len() ==> final(state).player_sessions@[j].player.id != player_id,
        session_index(old(state).player_sessions@, player_id) < 0 ==> final(state).player_sessions == old(state).player_sessions,
        session_index(old(state).player_sessions@, player_id) >= 0 ==> final(state).player_sessions@
            == old(state).player_sessions@.remove(session_index(old(state).player_sessions@, player_id)),
        loc_of(final(state).world_state.dynamic_data.players@, player_id) is None,
        forall|o: u64| o != player_id ==> loc_of(final(state).world_state.dynamic_data.players@, o)
            == loc_of(old(state).world_state.dynamic_data.players@, o),
        final(state).world_state.dynamic_data.npcs == old(state).world_state.dynamic_data.npcs,
        final(state).world_state.dynamic_data.room_items == old(state).world_state.dynamic_data.room_items,
        final(state).world_state.static_data == old(state).world_state.static_data,
{
    let ghost ss = state.player_sessions@;
    proof { lemma_session_index(ss, player_id); }
    match state.find_session(player_id) {
        Some(i) => {
            state.player_sessions.remove(i);
            proof {
                let s1 = state.player_sessions@;
                assert(s1 =~= ss.remove(i as int));
                assert forall|a: int, b: int| 0 <= a < b < s1.len() implies s1[a].player.id != s1[b].player.id by {
                    let a0 = if a < i { a } else { a + 1 };
                    let b0 = if b < i { b } else { b + 1 };
                    assert(s1[a] == ss[a0] && s1[b] == ss[b0]);
                }
                assert forall|j: int| 0 <= j < s1.len() implies s1[j].player.id != player_id by {
                    let j0 = if j < i { j } else { j + 1 };
                    assert(s1[j] == ss[j0]);
                }
            }
        },
        None => {},
    }
    state.world_state.remove_player(player_id);
}

/// Whether a location carries the name `name`.
pub open spec fn named(l: PlayerLocation, name: Seq<char>) -> bool {
    match l.user_name {
        Some(n) => n@ == name,
        None => false,
    }
}

/// The players to tell that `name` came or went in `room`: those located
/// there under another name (or none) who have a session, in the order of
/// the world's player list.
pub open spec fn watchers(ps: Seq<(u64, PlayerLocation)>, ss: Seq<PlayerSession>, room: Seq<char>, name: Seq<char>) -> Seq<u64>
    decreases ps.len(),
{
    if ps.len() == 0 {
        Seq::empty()
    } else {
        let rest = watchers(ps.drop_last(), ss, room, name);
        let e = ps.last();
        if e.1.room_id@ == room && !named(e.1, name) && session_index(ss, e.0) >= 0 {
            rest.push(e.0)
        } else {
            rest
        }
    }
}

/// The notice that `name` left (in yellow) or entered (in cyan) a room.
pub open spec fn movement_notice(name: Seq<char>, leaving: bool) -> MessageView {
    if leaving {
        MessageView::Info(seq![(name, spec_color(Color::Yellow)), (" 离开了。"@, spec_plain_style())])
    } else {
        MessageView::Info(seq![(name, spec_color(Color::Cyan)), (" 走进了房间。"@, spec_plain_style())])
    }
}

/// Addressed messages seen as ids and message views.
pub open spec fn addressed(v: Seq<(u64, ServerMessage)>) -> Seq<(u64, MessageView)> {
    v.map_values(|p: (u64, ServerMessage)| (p.0, p.1@))
}

/// The same message to each of `ids`.
pub open spec fn to_each(ids: Seq<u64>, m: MessageView) -> Seq<(u64, MessageView)> {
    ids.map_values(|id: u64| (id, m))
}

/// Adds, for each watcher of `room`, the notice that `name` left or entered.
fn tell_room(state: &GameState, room: &str, name: &str, leaving: bool, out: &mut Vec<(u64, ServerMessage)>)
    ensures
        addressed(final(out)@) == addressed(old(out)@) + to_each(
            watchers(state.world_state.dynamic_data.players@, state.player_sessions@, room@, name@),
            movement_notice(name@, leaving)),
{
    let ps = &state.world_state.dynamic_data.players;
    let ghost o0 = addressed(out@);
    let ghost m = movement_notice(name@, leaving);
    let mut i: usize = 0;
    proof {
        assert(ps@.take(0) =~= Seq::<(u64, PlayerLocation)>::empty());
        assert(addressed(out@) =~= o0 + to_each(watchers(ps@.take(0), state.player_sessions@, room@, name@), m));
    }
    while i < ps.len()
        invariant
            i <= ps.len(),
            ps@ == state.world_state.dynamic_data.players@,
            m == movement_notice(name@, leaving),
            addressed(out@) == o0 + to_each(watchers(ps@.take(i as int), state.player_sessions@, room@, name@), m),
        decreases ps.len() - i,
    {
        let ghost before = addressed(out@);
        proof { assert(ps@.take(i + 1).drop_last() =~= ps@.take(i as int)); }
        let id = ps[i].0;
        let is_named = match &ps[i].1.user_name {
            Some(n) => same_text(n.as_str(), name),
            None => false,
        };
        if same_text(ps[i].1.room_id.as_str(), room) && !is_named && state.find_session(id).is_some() {
            let mut t = Text::new();
            if leaving {
                t.push(name, color(Color::Yellow));
                t.push_plain(" 离开了。");
                assert(t@ =~= seq![(name@, spec_color(Color::Yellow)), (" 离开了。"@, spec_plain_style())]);
                out.push((id, ServerMessage::Info { payload: t }));
            } else {
                t.push(name, color(Color::Cyan));
                t.push_plain(" 走进了房间。");
                assert(t@ =~= seq![(name@, spec_color(Color::Cyan)), (" 走进了房间。"@, spec_plain_style())]);
                out.push((id, ServerMessage::Info { payload: t }));
            }
            proof {
                assert(out@.last().1@ == m);
                assert(addressed(out@) =~= before.push((id, m)));
                assert(to_each(watchers(ps@.take(i + 1), state.player_sessions@, room@, name@), m)
                    =~= to_each(watchers(ps@.take(i as int), state.player_sessions@, room@, name@), m).push((id, m)));
            }
        } else {
            proof {
                assert(watchers(ps@.take(i + 1), state.player_sessions@, room@, name@)
                    == watchers(ps@.take(i as int), state.player_sessions@, room@, name@));
            }
        }
        i = i + 1;
    }
    proof { assert(ps@.take(i as int) =~= ps@); }
}

/// The notices of a move of the player named `user_name` from `from_room`
/// to `to_room`: first to the watchers of the room left, then to those of
/// the room entered; each reads as leaving when its room is the room left.
/// A player without a name moves unseen.
pub fn room_movement_notices(state: &GameState, from_room: &str, to_room: &str, user_name: &Option<String>) -> (out: Vec<(u64, ServerMessage)>)
    ensures
        user_name is None ==> out@.len() == 0,
        user_name matches Some(n) ==> addressed(out@) == to_each(
                watchers(state.world_state.dynamic_data.players@, state.player_sessions@, from_room@, n@),
                movement_notice(n@, true))
            + to_each(
                watchers(state.world_state.dynamic_data.players@, state.player_sessions@, to_room@, n@),
                movement_notice(n@, to_room@ == from_room@)),
{
    let mut out: Vec<(u64, ServerMessage)> = Vec::new();
    match user_name {
        None => out,
        Some(n) => {
            proof { assert(addressed(out@) =~= Seq::<(u64, MessageView)>::empty()); }
            tell_room(state, from_room, n.as_str(), true, &mut out);
            let leaving = same_text(to_room, from_room);
            tell_room(state, to_room, n.as_str(), leaving, &mut out);
            out
        },
    }
}

/// The rooms where an idle player is reminded to work.
pub open spec fn hint_room(room: Seq<char>) -> bool {
    room == "bamboo_forest"@ || room == "spirit_spring"@
}

/// The room of player `id`, or the empty text when it has none.
pub open spec fn room_or_empty(w: WorldState, id: u64) -> Seq<char> {
    match loc_of(w.dynamic_data.players@, id) {
        Some(l) => l.room_id@,
        None => Seq::empty(),
    }
}

/// A character after the stamina of a heartbeat.
pub open spec fn recovered(p: Player) -> Player {
    Player { stamina: min_int(p.stamina + p.recovery(), p.stamina_max as int) as u32, ..p }
}

/// Whether a player is reminded to work at time `now`: in a working room
/// and idle for over 30 seconds.
pub open spec fn reminded(w: WorldState, p: Player, now: u64) -> bool {
    hint_room(room_or_empty(w, p.id)) && now - p.last_input_time > 30
}

/// A session after a heartbeat at time `now`: a logged-in character
/// recovers stamina, and a reminded one has its input time set to `now`.
pub open spec fn after_heartbeat(w: WorldState, s: PlayerSession, now: u64) -> PlayerSession {
    if s.user_id is None {
        s
    } else {
        let p = recovered(s.player);
        PlayerSession { player: if reminded(w, p, now) { Player { last_input_time: now, ..p } } else { p }, ..s }
    }
}

/// The players reminded to work at a heartbeat, in session order.
pub open spec fn reminded_ids(w: WorldState, ss: Seq<PlayerSession>, now: u64) -> Seq<u64>
    decreases ss.len(),
{
    if ss.len() == 0 {
        Seq::empty()
    } else {
        let rest = reminded_ids(w, ss.drop_last(), now);
        let s = ss.last();
        if s.user_id is Some && reminded(w, recovered(s.player), now) { rest.push(s.player.id) } else { rest }
    }
}

/// What a heartbeat needs to stay in range: the stamina of every
/// logged-in character can grow by its recovery, and no input lies after `now`.
pub open spec fn heartbeat_fits(ss: Seq<PlayerSession>, now: u64) -> bool {
    forall|i: int| 0 <= i < ss.len() && (#[trigger] ss[i]).user_id is Some ==> {
        &&& ss[i].player.stamina + ss[i].player.recovery() <= u32::MAX
        &&& ss[i].player.last_input_time <= now
    }
}

/// The reminder to work.
pub open spec fn work_reminder() -> MessageView {
    MessageView::Info(seq![("[提示]：你现在应该尝试输入 work 指令来进行伐木。记得随时输入 score 查看你的体力值。"@, spec_color(Color::Cyan))])
}

/// The heartbeat at time `now`: every logged-in character recovers
/// stamina; one idle for over 30 seconds in a working room is reminded to
/// work, and its input time is set to `now`.
pub fn heartbeat(state: &mut GameState, now: u64) -> (out: Vec<(u64, ServerMessage)>)
    requires
        old(state).wf(),
        heartbeat_fits(old(state).player_sessions@, now),
    ensures
        final(state).wf(),
        final(state).world_state == old(state).world_state,
        final(state).player_sessions@.len() == old(state).player_sessions@.len(),
        forall|i: int| 0 <= i < old(state).player_sessions@.len() ==> #[trigger] final(state).player_sessions@[i]
            == after_heartbeat(old(state).world_state, old(state).player_sessions@[i], now),
        addressed(out@) == to_each(reminded_ids(old(state).world_state, old(state).player_sessions@, now), work_reminder()),
{
    let ghost ss = state.player_sessions@;
    let ghost w = state.world_state;
    let mut out: Vec<(u64, ServerMessage)> = Vec::new();
    let mut i: usize = 0;
    proof {
        assert(ss.take(0) =~= Seq::<PlayerSession>::empty());
        assert(addressed(out@) =~= to_each(reminded_ids(w, ss.take(0), now), work_reminder()));
    }
    while i < state.player_sessions.len()
        invariant
            i <= state.player_sessions.len(),
            state.world_state == w,
            state.player_sessions@.len() == ss.len(),
            heartbeat_fits(ss, now),
            forall|j: int| 0 <= j < i ==> #[trigger] state.player_sessions@[j] == after_heartbeat(w, ss[j], now),
            forall|j: int| i <= j < ss.len() ==> #[trigger] state.player_sessions@[j] == ss[j],
            addressed(out@) == to_each(reminded_ids(w, ss.take(i as int), now), work_reminder()),
        decreases ss.len() - i,
    {
        let ghost before = addressed(out@);
        proof { assert(ss.take(i + 1).drop_last() =~= ss.take(i as int)); }
        if state.player_sessions[i].user_id.is_none() {
            proof { assert(state.player_sessions@[i as int] == after_heartbeat(w, ss[i as int], now)); }
            i = i + 1;
            continue;
        }
        let mut s = state.player_sessions.remove(i);
        proof { assert(s == ss[i as int]); }
        s.player.on_heartbeat_recovery();
        let room = match state.world_state.get_player_room_id(s.player.id) {
            Some(r) => r,
            None => String::new(),
        };
        let in_work_room = same_text(room.as_str(), "bamboo_forest") || same_text(room.as_str(), "spirit_spring");
        if in_work_room && now - s.player.last_input_time > 30 {
            let mut t = Text::new();
            t.push("[提示]：你现在应该尝试输入 work 指令来进行伐木。记得随时输入 score 查看你的体力值。", color(Color::Cyan));
            assert(t@ =~= seq![("[提示]：你现在应该尝试输入 work 指令来进行伐木。记得随时输入 score 查看你的体力值。"@, spec_color(Color::Cyan))]);
            out.push((s.player.id, ServerMessage::Info { payload: t }));
            s.player.last_input_time = now;
            proof {
                assert(addressed(out@) =~= before.push((ss[i as int].player.id, work_reminder())));
            }
        }
        state.player_sessions.insert(i, s);
        proof {
            assert(state.player_sessions@[i as int] == after_heartbeat(w, ss[i as int], now));
            assert(to_each(reminded_ids(w, ss.take(i + 1), now), work_reminder())
                =~= (if reminded(w, recovered(ss[i as int].player), now) {
                    to_each(reminded_ids(w, ss.take(i as int), now), work_reminder()).push((ss[i as int].player.id, work_reminder()))
                } else {
                    to_each(reminded_ids(w, ss.take(i as int), now), work_reminder())
                }));
        }
        i = i + 1;
    }
    proof {
        assert(ss.take(i as int) =~= ss);
        let s1 = state.player_sessions@;
        assert forall|a: int, b: int| 0 <= a < b < s1.len() implies s1[a].player.id != s1[b].player.id by {
            assert(s1[a] == after_heartbeat(w, ss[a], now));
            assert(s1[b] == after_heartbeat(w, ss[b], now));
        }
    }
    out
}

} // verus!
