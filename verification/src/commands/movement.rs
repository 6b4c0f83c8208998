//! The `go` command: moving through an exit, and the quests that a move
//! advances.

use vstd::prelude::*;
use vstd::string::*;
use crate::command::views_of;
use crate::game::{MessageView, ServerMessage, error, plain_msg};
use crate::quest_flow::{settle_quests, kept_views, settled_view_ids, add_names, lemma_kept_views, rewards_total,
    has_room_for, reward_amounts, lemma_after_reward, lemma_rewards_total_nonneg};
use crate::styled::{Text, Style, Color, spec_plain_style, spec_color_bold, plain_style, color_bold, same_text};
use crate::game::msg_opt;
use crate::ui::{get_full_room_description, room_description, item_names};
use crate::world::world_player::{Player, PlayerQuestStatus, QuestStatusView, status_views, after_reward, after_money,
    reward_msgs, exp_msgs};
use crate::world::world_state::{WorldState, loc_of};
use crate::world_model::{Quest, QuestRewards, Registry, Room};

verus! {

/// The room an exit in direction `dir` leads to: the first exit of that direction.
pub open spec fn exit_to(exits: Seq<(String, String)>, dir: Seq<char>) -> Option<Seq<char>>
    decreases exits.len(),
{
    if exits.len() == 0 {
        None
    } else if exits[0].0@ == dir {
        Some(exits[0].1@)
    } else {
        exit_to(exits.drop_first(), dir)
    }
}

/// The room an exit leads to.
pub fn exit_of(room: &Room, dir: &str) -> (r: Option<String>)
    ensures
        match exit_to(room.exits@, dir@) {
            Some(t) => r is Some && r->0@ == t,
            None => r is None,
        },
{
    let mut i: usize = 0;
    proof { assert(room.exits@.skip(0) =~= room.exits@); }
    while i < room.exits.len()
        invariant
            i <= room.exits.len(),
            exit_to(room.exits@, dir@) == exit_to(room.exits@.skip(i as int), dir@),
        decreases room.exits.len() - i,
    {
        proof {
            assert(room.exits@.skip(i as int)[0] == room.exits@[i as int]);
            assert(room.exits@.skip(i as int).drop_first() =~= room.exits@.skip(i + 1));
        }
        if same_text(room.exits[i].0.as_str(), dir) {
            return Some(room.exits[i].1.clone());
        }
        i = i + 1;
    }
    None
}

/// Whether a status's current step is to reach room `room`.
pub open spec fn move_step_here(st: QuestStatusView, reg: Registry<Quest>, room: Seq<char>) -> bool {
    match reg.lookup(st.quest_id) {
        Some(q) => st.current_step < q.steps@.len()
            && q.steps@[st.current_step as int].step_type@ == "move"@
            && q.steps@[st.current_step as int].target_id@ == room,
        None => false,
    }
}

/// The statuses after reaching `room`: each whose step it was moves on.
pub open spec fn move_stepped(sv: Seq<QuestStatusView>, reg: Registry<Quest>, room: Seq<char>) -> Seq<QuestStatusView> {
    sv.map_values(|st: QuestStatusView| if move_step_here(st, reg, room) {
        QuestStatusView { current_step: (st.current_step + 1) as u32, ..st }
    } else {
        st
    })
}

/// The quests a move advanced, in order: name, whether it is now complete,
/// and its rewards.
pub open spec fn move_updates(sv: Seq<QuestStatusView>, reg: Registry<Quest>, room: Seq<char>) -> Seq<(Seq<char>, bool, QuestRewards)>
    decreases sv.len(),
{
    if sv.len() == 0 {
        seq![]
    } else {
        let prev = move_updates(sv.drop_last(), reg, room);
        let st = sv.last();
        if move_step_here(st, reg, room) {
            let q = reg.lookup(st.quest_id)->0;
            prev.push((q.name@, st.current_step + 1 == q.steps@.len(), q.rewards))
        } else {
            prev
        }
    }
}

/// The player after the rewards of the completed updates, paid in order.
pub open spec fn paid(p: Player, ups: Seq<(Seq<char>, bool, QuestRewards)>) -> Player
    decreases ups.len(),
{
    if ups.len() == 0 {
        p
    } else {
        let before = paid(p, ups.drop_last());
        if ups.last().1 { after_reward(before, ups.last().2) } else { before }
    }
}

pub proof fn lemma_paid_frame(p: Player, ups: Seq<(Seq<char>, bool, QuestRewards)>)
    ensures
        paid(p, ups).completed_quests == p.completed_quests,
        paid(p, ups).active_quests == p.active_quests,
        paid(p, ups).stats == p.stats,
        paid(p, ups).id == p.id,
        paid(p, ups).last_input_time == p.last_input_time,
    decreases ups.len(),
{
    if ups.len() > 0 {
        lemma_paid_frame(p, ups.drop_last());
        lemma_after_reward(paid(p, ups.drop_last()), ups.last().2);
    }
}

/// Pay-outs do not depend on the quests in progress or the finished list.
pub proof fn lemma_paid_notices_frame(p: Player, q: Player, ups: Seq<(Seq<char>, bool, QuestRewards)>)
    requires
        p == (Player { active_quests: p.active_quests, completed_quests: p.completed_quests, ..q }),
    ensures
        paid_notices(p, ups) == paid_notices(q, ups),
        paid(p, ups) == (Player { active_quests: p.active_quests, completed_quests: p.completed_quests, ..paid(q, ups) }),
    decreases ups.len(),
{
    if ups.len() > 0 {
        lemma_paid_notices_frame(p, q, ups.drop_last());
        let bp = paid(p, ups.drop_last());
        let bq = paid(q, ups.drop_last());
        let r = ups.last().2;
        match r.exp {
            Some(x) => crate::quest_flow::lemma_exp_msgs_frame(after_money(bp, r), after_money(bq, r), x as int),
            None => {},
        }
    }
}

/// The reward notices of the completed updates, in order.
pub open spec fn paid_notices(p: Player, ups: Seq<(Seq<char>, bool, QuestRewards)>) -> Seq<Seq<(Seq<char>, Style)>>
    decreases ups.len(),
{
    if ups.len() == 0 {
        seq![]
    } else {
        let prev = paid_notices(p, ups.drop_last());
        let before = paid(p, ups.drop_last());
        let r = ups.last().2;
        if ups.last().1 {
            prev.push(reward_msgs(r, match r.exp { Some(x) => exp_msgs(after_money(before, r), x as int), None => seq![] }))
        } else {
            prev
        }
    }
}

/// The lines a move adds for the quests it advanced.
pub open spec fn update_lines(ups: Seq<(Seq<char>, bool, QuestRewards)>) -> Seq<(Seq<char>, Style)>
    decreases ups.len(),
{
    if ups.len() == 0 {
        seq![]
    } else {
        update_lines(ups.drop_last()) + seq![("\n"@, spec_plain_style()), if ups.last().1 {
            ("[任务完成] "@ + ups.last().0, spec_color_bold(Color::Yellow))
        } else {
            ("[任务更新] "@ + ups.last().0, spec_color_bold(Color::Green))
        }]
    }
}

/// The description of a room just entered: no one else shown.
pub open spec fn arrival_description(world: WorldState, room: Seq<char>) -> Seq<(Seq<char>, Style)> {
    room_description(world.static_data.rooms.lookup(room), seq![], seq![], seq![])
}


/// What a `go` did.
pub enum MoveOutcome {
    /// No exit leads that way.
    NoExit,
    /// Not even 1 stamina left.
    Tired,
    /// Moved: the new room's description with the quest lines, the notices
    /// of the rewards paid, and the rooms left and entered.
    Moved { description: Text, rewards: Vec<Text>, from: String, to: String },
}

/// Every quest in progress can move one more step without overflow.
pub open spec fn steps_fit(sv: Seq<QuestStatusView>) -> bool {
    forall|i: int| 0 <= i < sv.len() ==> (#[trigger] sv[i]).current_step < u32::MAX
}

/// Whether a status's current step is to reach room `room`.
fn move_step_matches(st: &PlayerQuestStatus, reg: &Registry<Quest>, room: &str) -> (r: bool)
    ensures
        r == move_step_here(st@, *reg, room@),
{
    match reg.get(st.quest_id.as_str()) {
        Some(q) => {
            if (st.current_step as usize) < q.steps.len() {
                let step = &q.steps[st.current_step as usize];
                same_text(step.step_type.as_str(), "move") && same_text(step.target_id.as_str(), room)
            } else {
                false
            }
        },
        None => false,
    }
}

/// The quests a move advances: each status whose step is to reach the new
/// room moves on (rewards of the ones completed are paid in order), then the
/// finished quests are settled.
fn advance_move_quests(player: &mut Player, reg: &Registry<Quest>, room: &str) -> (r: (Vec<(String, bool)>, Vec<Text>))
    requires
        has_room_for(*old(player), rewards_total(status_views(old(player).active_quests@), *reg)),
        steps_fit(status_views(old(player).active_quests@)),
    ensures
        ({
            let sv0 = status_views(old(player).active_quests@);
            let ups = move_updates(sv0, *reg, room@);
            let sv1 = move_stepped(sv0, *reg, room@);
            &&& r.0@.len() == ups.len()
            &&& forall|j: int| 0 <= j < ups.len() ==> (#[trigger] r.0@[j]).0@ == ups[j].0 && r.0@[j].1 == ups[j].1
            &&& r.1@.len() == paid_notices(*old(player), ups).len()
            &&& forall|j: int| 0 <= j < r.1@.len() ==> (#[trigger] r.1@[j])@ == paid_notices(*old(player), ups)[j]
            &&& status_views(final(player).active_quests@) == kept_views(sv1, *reg)
            &&& views_of(final(player).completed_quests@) == add_names(views_of(old(player).completed_quests@), settled_view_ids(sv1, *reg))
            &&& *final(player) == (Player { active_quests: final(player).active_quests, completed_quests: final(player).completed_quests, ..paid(*old(player), ups) })
        }),
{
    let ghost p0 = *player;
    let ghost sv0 = status_views(player.active_quests@);
    let ghost total = rewards_total(sv0, *reg);
    let mut notes: Vec<(String, bool)> = Vec::new();
    let mut texts: Vec<Text> = Vec::new();
    let mut i: usize = 0;
    proof {
        assert(sv0.take(0) =~= Seq::<QuestStatusView>::empty());
        lemma_rewards_total_nonneg(sv0, *reg);
    }
    while i < player.active_quests.len()
        invariant
            i <= player.active_quests.len(),
            sv0.len() == player.active_quests.len(),
            steps_fit(sv0),
            total == rewards_total(sv0, *reg),
            ({
                let pre = sv0.take(i as int);
                let ups = move_updates(pre, *reg, room@);
                let done = rewards_total(pre, *reg);
                &&& notes@.len() == ups.len()
                &&& forall|j: int| 0 <= j < ups.len() ==> (#[trigger] notes@[j]).0@ == ups[j].0 && notes@[j].1 == ups[j].1
                &&& texts@.len() == paid_notices(p0, ups).len()
                &&& forall|j: int| 0 <= j < texts@.len() ==> (#[trigger] texts@[j])@ == paid_notices(p0, ups)[j]
                &&& *player == (Player { active_quests: player.active_quests, ..paid(p0, ups) })
                &&& has_room_for(*player, (total.0 - done.0, total.1 - done.1, total.2 - done.2))
            }),
            forall|j: int| 0 <= j < i ==> (#[trigger] status_views(player.active_quests@)[j]) == move_stepped(sv0, *reg, room@)[j],
            forall|j: int| i <= j < sv0.len() ==> (#[trigger] status_views(player.active_quests@)[j]) == sv0[j],
        decreases player.active_quests.len() - i,
    {
        let ghost pre = sv0.take(i as int);
        let ghost ups0 = move_updates(pre, *reg, room@);
        let ghost p_before = *player;
        let ghost av_before = player.active_quests@;
        proof {
            assert(sv0.take(i + 1).drop_last() =~= pre);
            assert(sv0.take(i + 1).last() == sv0[i as int]);
            assert(status_views(player.active_quests@)[i as int] == sv0[i as int]);
            assert(player.active_quests@[i as int]@ == sv0[i as int]);
            crate::quest_flow::lemma_rewards_total_prefix(sv0, *reg, i + 1);
            lemma_rewards_total_nonneg(sv0.take(i + 1), *reg);
        }
        if move_step_matches(&player.active_quests[i], reg, room) {
            let quest = match reg.get(player.active_quests[i].quest_id.as_str()) {
                Some(q) => q,
                None => {
                    proof { assert(false); }
                    return (notes, texts);
                },
            };
            let next = player.active_quests[i].current_step + 1;
            let finished = (next as usize) == quest.steps.len();
            if finished {
                proof { lemma_after_reward(*player, quest.rewards); }
                let t = player.grant_reward(&quest.rewards);
                texts.push(t);
            }
            player.active_quests[i].current_step = next;
            notes.push((quest.name.clone(), finished));
            proof {
                let ups1 = move_updates(sv0.take(i + 1), *reg, room@);
                assert(ups1 == ups0.push((quest.name@, finished, quest.rewards)));
                assert(ups1.drop_last() =~= ups0);
            }
        }
        proof {
            let ups1 = move_updates(sv0.take(i + 1), *reg, room@);
            assert(forall|j: int| 0 <= j < ups0.len() ==> ups1[j] == ups0[j]);
            let av = player.active_quests@;
            assert(av.len() == av_before.len());
            assert forall|j: int| 0 <= j < av.len() && j != i implies av[j] == av_before[j] by {}
            assert(status_views(av)[i as int] == av[i as int]@);
            assert(move_stepped(sv0, *reg, room@)[i as int] == status_views(av)[i as int]);
            assert forall|j: int| 0 <= j < i + 1 implies (#[trigger] status_views(av)[j]) == move_stepped(sv0, *reg, room@)[j] by {
                if j < i {
                    assert(status_views(av)[j] == av[j]@);
                    assert(status_views(av_before)[j] == av_before[j]@);
                }
            }
            assert forall|j: int| i + 1 <= j < sv0.len() implies (#[trigger] status_views(av)[j]) == sv0[j] by {
                assert(status_views(av)[j] == av[j]@);
                assert(status_views(av_before)[j] == av_before[j]@);
            }
        }
        i = i + 1;
    }
    proof {
        assert(sv0.take(i as int) =~= sv0);
        assert(status_views(player.active_quests@) =~= move_stepped(sv0, *reg, room@));
    }
    let ghost before_settle = player.active_quests@;
    proof { lemma_paid_frame(p0, move_updates(sv0, *reg, room@)); }
    settle_quests(player, reg);
    proof { lemma_kept_views(before_settle, *reg); }
    (notes, texts)
}


/// Where an exit in direction `dir` from room `room` leads, if the room
/// exists and has one.
pub open spec fn exit_from(world: WorldState, room: Seq<char>, dir: Seq<char>) -> Option<Seq<char>> {
    match world.static_data.rooms.lookup(room) {
        Some(r) => exit_to(r.exits@, dir),
        None => None,
    }
}

/// What moving to room `to` does to a player `p` (whose step was paid for)
/// and what it tells: the quests advanced, rewards paid, finished quests
/// settled; the new room's description with a line per advanced quest, and
/// the reward notices.
pub open spec fn arrival(p: Player, p1: Player, reg: Registry<Quest>, world: WorldState, to: Seq<char>,
    description: Seq<(Seq<char>, Style)>, rewards: Seq<Seq<(Seq<char>, Style)>>) -> bool {
    let sv0 = status_views(p.active_quests@);
    let ups = move_updates(sv0, reg, to);
    let sv1 = move_stepped(sv0, reg, to);
    &&& status_views(p1.active_quests@) == kept_views(sv1, reg)
    &&& views_of(p1.completed_quests@) == add_names(views_of(p.completed_quests@), settled_view_ids(sv1, reg))
    &&& p1 == (Player { active_quests: p1.active_quests, completed_quests: p1.completed_quests, ..paid(p, ups) })
    &&& description == arrival_description(world, to) + update_lines(ups)
    &&& rewards == paid_notices(p, ups)
}

/// The player's location after moving to `to` under `user_id`; no one else moves.
pub open spec fn moved_to(w0: WorldState, w1: WorldState, player_id: u64, to: Seq<char>, user_id: Option<String>) -> bool {
    &&& w1.wf()
    &&& loc_of(w1.dynamic_data.players@, player_id) matches Some(l) && l.room_id@ == to && l.user_name == user_id
    &&& forall|o: u64| o != player_id ==> loc_of(w1.dynamic_data.players@, o) == loc_of(w0.dynamic_data.players@, o)
    &&& w1.dynamic_data.npcs == w0.dynamic_data.npcs
    &&& w1.dynamic_data.room_items == w0.dynamic_data.room_items
    &&& w1.static_data == w0.static_data
}

/// The texts of a list of styled messages.
pub open spec fn texts_view(v: Seq<Text>) -> Seq<Seq<(Seq<char>, Style)>> {
    v.map_values(|t: Text| t@)
}

/// Moves through the exit in direction `dir` of room `current_room_id`: no
/// exit, too tired (1 stamina needed), or moved (see `arrival`).
pub fn go_through(
    player: &mut Player,
    direction: &str,
    current_room_id: &str,
    world: &mut WorldState,
    player_id: u64,
    user_id: Option<String>,
) -> (r: MoveOutcome)
    requires
        old(world).wf(),
        has_room_for(*old(player), rewards_total(status_views(old(player).active_quests@), old(world).static_data.quests)),
        steps_fit(status_views(old(player).active_quests@)),
    ensures
        exit_from(*old(world), current_room_id@, direction@) is None ==> r is NoExit && *final(player) == *old(player) && *final(world) == *old(world),
        exit_from(*old(world), current_room_id@, direction@) is Some && old(player).stamina < 1 ==> r is Tired && *final(player) == *old(player) && *final(world) == *old(world),
        exit_from(*old(world), current_room_id@, direction@) is Some && old(player).stamina >= 1 ==> match r {
            MoveOutcome::Moved { description, rewards, from, to: t } => {
                &&& from@ == current_room_id@
                &&& t@ == exit_from(*old(world), current_room_id@, direction@)->0
                &&& moved_to(*old(world), *final(world), player_id, t@, user_id)
                &&& arrival(tired_by_one(*old(player)), *final(player),
                    old(world).static_data.quests, *old(world), t@, description@, texts_view(rewards@))
            },
            _ => false,
        },
{
    let next = match world.get_room(current_room_id) {
        Some(room) => exit_of(room, direction),
        None => None,
    };
    let next = match next {
        Some(n) => n,
        None => return MoveOutcome::NoExit,
    };
    if !player.consume_stamina(1) {
        return MoveOutcome::Tired;
    }
    world.move_player_to_room(player_id, next.as_str(), user_id);
    let ghost p1 = *player;
    let (notes, texts) = advance_move_quests(player, &world.static_data.quests, next.as_str());
    let no_players: Vec<String> = Vec::new();
    let no_npcs: Vec<crate::npc::Npc> = Vec::new();
    let no_items: Vec<u32> = Vec::new();
    proof {
        assert(views_of(no_players@) =~= seq![]);
        assert(crate::ui::npc_names(no_npcs@) =~= seq![]);
        assert(item_names(no_items@, world.static_data.item_prototypes@) =~= seq![]);
    }
    let mut description = get_full_room_description(next.as_str(), world, no_players, no_npcs, no_items);
    let ghost head = description@;
    let ghost ups = move_updates(status_views(p1.active_quests@), world.static_data.quests, next@);
    proof {
        assert(ups.take(0) =~= Seq::<(Seq<char>, bool, QuestRewards)>::empty());
    }
    let mut i: usize = 0;
    while i < notes.len()
        invariant
            i <= notes.len(),
            notes@.len() == ups.len(),
            forall|j: int| 0 <= j < ups.len() ==> (#[trigger] notes@[j]).0@ == ups[j].0 && notes@[j].1 == ups[j].1,
            description@ == head + update_lines(ups.take(i as int)),
        decreases notes.len() - i,
    {
        proof {
            assert(ups.take(i + 1).drop_last() =~= ups.take(i as int));
            assert(ups.take(i + 1).last() == ups[i as int]);
        }
        description.push_plain("\n");
        if notes[i].1 {
            let mut l = "[任务完成] ".to_string();
            l.append(notes[i].0.as_str());
            description.push_string(l, color_bold(Color::Yellow));
        } else {
            let mut l = "[任务更新] ".to_string();
            l.append(notes[i].0.as_str());
            description.push_string(l, color_bold(Color::Green));
        }
        proof { assert(description@ =~= head + update_lines(ups.take(i + 1))); }
        i = i + 1;
    }
    proof {
        assert(ups.take(i as int) =~= ups);
        assert(texts_view(texts@) =~= paid_notices(p1, ups));
    }
    MoveOutcome::Moved { description, rewards: texts, from: current_room_id.to_string(), to: next }
}


/// A player after spending 1 stamina on a step.
pub open spec fn tired_by_one(p: Player) -> Player {
    Player { stamina: (p.stamina - 1) as u32, ..p }
}

/// The message and the two room ids of a `go` result, as views.
pub open spec fn go_parts(r: Option<(ServerMessage, String, String)>) -> (MessageView, Seq<char>, Seq<char>) {
    let x = r->0;
    (x.0@, x.1@, x.2@)
}

/// Moves the player (see `go_through`), unless a fight holds them: the
/// message, and the rooms left and entered (empty when there was no move).
/// The reward notices of quests completed on the way are not returned.
pub fn handle_go(
    player: &mut Player,
    direction: &str,
    current_room_id: &str,
    world: &mut WorldState,
    player_id: u64,
    user_id: Option<String>,
) -> (r: Option<(ServerMessage, String, String)>)
    requires
        old(world).wf(),
        has_room_for(*old(player), rewards_total(status_views(old(player).active_quests@), old(world).static_data.quests)),
        steps_fit(status_views(old(player).active_quests@)),
    ensures
        final(world).wf(),
        old(player).combat_state is Some ==> *final(player) == *old(player) && *final(world) == *old(world)
            && r is Some && go_parts(r).0 == MessageView::Error(plain_msg("你正在和"@ + old(player).combat_state->0.target_name@ + "战斗，不能移动！"@))
            && go_parts(r).1.len() == 0 && go_parts(r).2.len() == 0,
        old(player).combat_state is None && exit_from(*old(world), current_room_id@, direction@) is None
            ==> r is None && *final(player) == *old(player) && *final(world) == *old(world),
        old(player).combat_state is None && exit_from(*old(world), current_room_id@, direction@) is Some && old(player).stamina < 1
            ==> *final(player) == *old(player) && *final(world) == *old(world)
                && r is Some && go_parts(r).0 == MessageView::Error(plain_msg("你太累了，走不动了。"@)) && go_parts(r).1.len() == 0 && go_parts(r).2.len() == 0,
        old(player).combat_state is None && exit_from(*old(world), current_room_id@, direction@) is Some && old(player).stamina >= 1
            ==> r is Some && go_parts(r).1 == current_room_id@ && go_parts(r).2 == exit_from(*old(world), current_room_id@, direction@)->0
                && moved_to(*old(world), *final(world), player_id, go_parts(r).2, user_id)
                && exists|d: Seq<(Seq<char>, Style)>, rs: Seq<Seq<(Seq<char>, Style)>>|
                    #[trigger] arrival(tired_by_one(*old(player)), *final(player),
                        old(world).static_data.quests, *old(world), go_parts(r).2, d, rs) && go_parts(r).0 == MessageView::Description(d),
{
    if let Some(cs) = &player.combat_state {
        let mut line = "你正在和".to_string();
        line.append(cs.target_name.as_str());
        line.append("战斗，不能移动！");
        return Some((crate::game::error_text(line), String::new(), String::new()));
    }
    match go_through(player, direction, current_room_id, world, player_id, user_id) {
        MoveOutcome::NoExit => None,
        MoveOutcome::Tired => Some((error("你太累了，走不动了。"), String::new(), String::new())),
        MoveOutcome::Moved { description, rewards, from, to } => {
            let ghost rs = texts_view(rewards@);
            Some((ServerMessage::Description { payload: description }, from, to))
        },
    }
}

} // verus!
