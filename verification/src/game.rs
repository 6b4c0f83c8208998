//! The game as the server runs it: the world, the players' sessions, and
//! what each command does to them.

use vstd::prelude::*;
use vstd::string::*;
use crate::world::world_player::Player;
use crate::world::world_state::WorldState;
use crate::styled::{Text, Style, spec_plain_style, plain_style, same_text, list_has, contains_text, insert_text};
use crate::command::views_of;
use crate::commands::movement::{paid, paid_notices, lemma_paid_frame};
use crate::quest_flow::{kills_done, kill_done, has_room_for, rewards_total, lemma_rewards_total_nonneg, lemma_after_reward, add_names};
use crate::world::world_player::{PlayerQuestStatus, QuestStatusView, status_views, after_money, statuses_after_kill,
    kills_fit, all_kill_msgs};
use crate::styled::{plain_of, decimal, u64_text};
use crate::commands::interaction::{npc_target, find_npc, lemma_npc_index};
use crate::commands::battle::{attackable, can_attack, friendly_refusal, player_stats, npc_stats, player_combat_stats,
    npc_combat_stats, strike, struck, log_of, defeat_line, heals, heal_fits, cast_target, opt_str, after_heal, qi_refusal,
    handle_cast, cast_blow_msg};
use crate::combat::{heal_log, heal_amount};
use crate::combat::{CombatResult, CombatResultView, attack_fits, attack_outcome, fits_i32, resolve_attack, opt_skill};
use crate::world_model::SkillTemplate;
use crate::commands::look::{look_description, bounties, bounty_lines, describe_room_for};
use crate::commands::quest::{board_in, has_board};
use crate::commands::player::{work_fits, work_done, work_with_line, handle_rest, handle_inventory, handle_score, rested, inventory_msg};
use crate::commands::interaction::{talk_fits, talk_to, handle_get, talk_outcome, get_done, item_found};
use crate::commands::quest::{handle_accept, handle_quest, accept_done, quest_msg};
use crate::commands::movement::{steps_fit, go_through, MoveOutcome, exit_from, arrival, moved_to, tired_by_one, texts_view};
use crate::world::world_state::items_in;
use crate::world::world_player::score_msgs;
use crate::ui::{generate_who_list, who_list_msgs, ranked, who_rows, room_of};
use crate::command::{Command, CommandView};
use crate::world::world_state::loc_of;
use crate::ui::{joined_text, join_strings};
use crate::chance::choose_from;
use crate::styled::{spec_color_bold, color_bold};
use crate::npc::Npc;
use crate::styled::{Color, color};
use crate::world::world_state::npc_pos;
use crate::world_model::{Quest, QuestRewards, Registry};

verus! {

/// A message to a client: a description, a notice, or an error.
pub enum ServerMessage {
    Description { payload: Text },
    Info { payload: Text },
    Error { payload: Text },
}

/// The kind and styled text of a message.
pub enum MessageView {
    Description(Seq<(Seq<char>, Style)>),
    Info(Seq<(Seq<char>, Style)>),
    Error(Seq<(Seq<char>, Style)>),
}

impl View for ServerMessage {
    type V = MessageView;

    open spec fn view(&self) -> MessageView {
        match self {
            ServerMessage::Description { payload } => MessageView::Description(payload@),
            ServerMessage::Info { payload } => MessageView::Info(payload@),
            ServerMessage::Error { payload } => MessageView::Error(payload@),
        }
    }
}

/// A message of one plain span.
pub open spec fn plain_msg(t: Seq<char>) -> Seq<(Seq<char>, Style)> {
    seq![(t, spec_plain_style())]
}

/// The view of an optional message.
pub open spec fn msg_opt(m: Option<ServerMessage>) -> Option<MessageView> {
    match m {
        Some(x) => Some(x@),
        None => None,
    }
}

/// The views of a list of messages.
pub open spec fn messages_view(v: Seq<ServerMessage>) -> Seq<MessageView> {
    v.map_values(|m: ServerMessage| m@)
}

/// An information message of plain text.
pub fn info(t: &str) -> (m: ServerMessage)
    ensures
        m@ == MessageView::Info(plain_msg(t@)),
{
    let mut p = Text::new();
    p.push_plain(t);
    assert(p@ =~= plain_msg(t@));
    ServerMessage::Info { payload: p }
}

/// An error message of plain text.
pub fn error(t: &str) -> (m: ServerMessage)
    ensures
        m@ == MessageView::Error(plain_msg(t@)),
{
    let mut p = Text::new();
    p.push_plain(t);
    assert(p@ =~= plain_msg(t@));
    ServerMessage::Error { payload: p }
}

/// An error message of plain text given as a string.
pub fn error_text(t: String) -> (m: ServerMessage)
    ensures
        m@ == MessageView::Error(plain_msg(t@)),
{
    let mut p = Text::new();
    p.push_string(t, plain_style());
    assert(p@ =~= plain_msg(t@));
    ServerMessage::Error { payload: p }
}

/// A connected player: the character and, once logged in, the user id.
pub struct PlayerSession {
    pub player: Player,
    pub user_id: Option<String>,
}

/// The world and the sessions, each player id once.
pub struct GameState {
    pub world_state: WorldState,
    pub player_sessions: Vec<PlayerSession>,
}


/// The pay-outs of the completed kill quests: one completed update per quest.
pub open spec fn kill_payouts(done: Seq<QuestStatusView>, reg: Registry<Quest>) -> Seq<(Seq<char>, bool, QuestRewards)> {
    done.map_values(|st: QuestStatusView| (st.quest_id, true, reg.lookup(st.quest_id)->0.rewards))
}

/// The statuses whose quest id is not among `ids`.
pub open spec fn without_ids(sts: Seq<PlayerQuestStatus>, ids: Seq<Seq<char>>) -> Seq<PlayerQuestStatus>
    decreases sts.len(),
{
    if sts.len() == 0 {
        seq![]
    } else {
        let prev = without_ids(sts.drop_last(), ids);
        if ids.contains(sts.last().quest_id@) { prev } else { prev.push(sts.last()) }
    }
}

/// The ids of statuses.
pub open spec fn ids_of(sts: Seq<QuestStatusView>) -> Seq<Seq<char>> {
    sts.map_values(|st: QuestStatusView| st.quest_id)
}

/// The notices of a list of texts, each an information message.
pub open spec fn infos(ts: Seq<Seq<(Seq<char>, Style)>>) -> Seq<MessageView> {
    ts.map_values(|t: Seq<(Seq<char>, Style)>| MessageView::Info(t))
}

/// Pays every completed kill quest, records it as finished, and drops the
/// statuses of those quests; the reward notices join `msgs`.
pub fn pay_kill_quests(player: &mut Player, reg: &Registry<Quest>, msgs: &mut Vec<ServerMessage>)
    requires
        has_room_for(*old(player), rewards_total(kills_done(status_views(old(player).active_quests@), *reg), *reg)),
    ensures
        ({
            let done = kills_done(status_views(old(player).active_quests@), *reg);
            let ups = kill_payouts(done, *reg);
            &&& messages_view(final(msgs)@) == messages_view(old(msgs)@) + infos(paid_notices(*old(player), ups))
            &&& views_of(final(player).completed_quests@) == add_names(views_of(old(player).completed_quests@), ids_of(done))
            &&& final(player).active_quests@ == without_ids(old(player).active_quests@, ids_of(done))
            &&& *final(player) == (Player { active_quests: final(player).active_quests, completed_quests: final(player).completed_quests, ..paid(*old(player), ups) })
        }),
{
    let ghost p0 = *player;
    let ghost sv0 = status_views(player.active_quests@);
    let ghost m0 = messages_view(msgs@);
    let ghost done = kills_done(sv0, *reg);
    let mut ids: Vec<String> = Vec::new();
    let mut i: usize = 0;
    proof { assert(sv0.take(0) =~= Seq::<QuestStatusView>::empty()); }
    while i < player.active_quests.len()
        invariant
            i <= player.active_quests.len(),
            *player == p0,
            sv0 == status_views(player.active_quests@),
            views_of(ids@) == ids_of(kills_done(sv0.take(i as int), *reg)),
        decreases player.active_quests.len() - i,
    {
        proof {
            assert(sv0.take(i + 1).drop_last() =~= sv0.take(i as int));
            assert(sv0.take(i + 1).last() == sv0[i as int]);
            assert(sv0[i as int] == player.active_quests@[i as int]@);
        }
        let st = &player.active_quests[i];
        if st.is_completed {
            match reg.get(st.quest_id.as_str()) {
                Some(q) => {
                    if same_text(q.quest_type.as_str(), "kill") {
                        let ghost i0 = ids@;
                        ids.push(st.quest_id.clone());
                        proof { assert(views_of(ids@) =~= views_of(i0).push(st.quest_id@)); }
                    }
                },
                None => {},
            }
        }
        proof { assert(views_of(ids@) =~= ids_of(kills_done(sv0.take(i + 1), *reg))); }
        i = i + 1;
    }
    proof { assert(sv0.take(i as int) =~= sv0); }
    let ghost ups = kill_payouts(done, *reg);
    let ghost total = rewards_total(done, *reg);
    let mut k: usize = 0;
    proof {
        lemma_rewards_total_nonneg(done, *reg);
        crate::quest_flow::lemma_kills_done_all(sv0, *reg);
        crate::quest_flow::lemma_kills_done_total(sv0, *reg);
        assert(done.take(0) =~= Seq::<QuestStatusView>::empty());
        assert(ups.take(0) =~= Seq::<(Seq<char>, bool, QuestRewards)>::empty());
        assert(messages_view(msgs@) =~= m0 + infos(paid_notices(p0, ups.take(0))));
    }
    while k < ids.len()
        invariant
            k <= ids.len(),
            views_of(ids@) == ids_of(done),
            done.len() == ids@.len(),
            ups == kill_payouts(done, *reg),
            total == rewards_total(done, *reg),
            p0.active_quests == player.active_quests,
            ({
                let pre = done.take(k as int);
                let paid_so_far = rewards_total(pre, *reg);
                &&& messages_view(msgs@) == m0 + infos(paid_notices(p0, ups.take(k as int)))
                &&& views_of(player.completed_quests@) == add_names(views_of(p0.completed_quests@), ids_of(pre))
                &&& *player == (Player { completed_quests: player.completed_quests, ..paid(p0, ups.take(k as int)) })
                &&& has_room_for(*player, (total.0 - paid_so_far.0, total.1 - paid_so_far.1, total.2 - paid_so_far.2))
            }),
            forall|j: int| 0 <= j < done.len() ==> #[trigger] kill_done(done[j], *reg),
        decreases ids.len() - k,
    {
        proof {
            assert(done.take(k + 1).drop_last() =~= done.take(k as int));
            assert(done.take(k + 1).last() == done[k as int]);
            assert(ups.take(k + 1).drop_last() =~= ups.take(k as int));
            assert(ups.take(k + 1).last() == ups[k as int]);
            assert(views_of(ids@)[k as int] == ids@[k as int]@);
            assert(ids_of(done)[k as int] == done[k as int].quest_id);
            assert(ids@[k as int]@ == done[k as int].quest_id);
            crate::quest_flow::lemma_rewards_total_prefix(done, *reg, k + 1);
            lemma_rewards_total_nonneg(done.take(k + 1), *reg);
            assert(kill_done(done[k as int], *reg));
            lemma_after_reward(*player, reg.lookup(done[k as int].quest_id)->0.rewards);
        }
        let ghost pk = *player;
        match reg.get(ids[k].as_str()) {
            Some(q) => {
                let t = player.grant_reward(&q.rewards);
                proof {
                    let before = paid(p0, ups.take(k as int));
                    lemma_paid_frame(p0, ups.take(k as int));
                    match q.rewards.exp {
                        Some(x) => crate::quest_flow::lemma_exp_msgs_frame(after_money(pk, q.rewards), after_money(before, q.rewards), x as int),
                        None => {},
                    }
                    assert(t@ == paid_notices(p0, ups.take(k + 1)).last());
                    assert(ups[k as int].1);
                    assert(paid_notices(p0, ups.take(k + 1)) == paid_notices(p0, ups.take(k as int)).push(paid_notices(p0, ups.take(k + 1)).last()));
                }
                let ghost mv = messages_view(msgs@);
                msgs.push(ServerMessage::Info { payload: t });
                proof { assert(messages_view(msgs@) =~= mv.push(MessageView::Info(paid_notices(p0, ups.take(k + 1)).last()))); }
            },
            None => {
                proof { assert(false); }
            },
        }
        let ghost before = player.completed_quests@;
        proof { crate::quest_flow::lemma_list_has_views_pub(before, ids@[k as int]@); }
        insert_text(&mut player.completed_quests, ids[k].clone());
        proof {
            if !list_has(before, ids@[k as int]@) {
                assert(views_of(player.completed_quests@) =~= views_of(before).push(ids@[k as int]@));
            }
            assert(ids_of(done.take(k + 1)).drop_last() =~= ids_of(done.take(k as int)));
            assert(infos(paid_notices(p0, ups.take(k + 1))) =~= infos(paid_notices(p0, ups.take(k as int))).push(MessageView::Info(paid_notices(p0, ups.take(k + 1)).last())));
            assert(messages_view(msgs@) =~= m0 + infos(paid_notices(p0, ups.take(k + 1))));
        }
        k = k + 1;
    }
    proof {
        assert(done.take(k as int) =~= done);
        assert(ups.take(k as int) =~= ups);
    }
    let ghost a0 = player.active_quests@;
    let mut keep: Vec<PlayerQuestStatus> = Vec::new();
    let mut src: Vec<PlayerQuestStatus> = Vec::new();
    std::mem::swap(&mut src, &mut player.active_quests);
    let total_len = src.len();
    let mut j: usize = 0;
    while src.len() > 0
        invariant
            j + src@.len() == total_len,
            total_len == a0.len(),
            src@ == a0.skip(j as int),
            keep@ == without_ids(a0.take(j as int), ids_of(done)),
            views_of(ids@) == ids_of(done),
            *player == (Player { active_quests: player.active_quests, ..*player }),
        decreases src.len(),
    {
        let st = src.remove(0);
        proof {
            assert(a0.take(j + 1).drop_last() =~= a0.take(j as int));
            assert(a0.skip(j as int)[0] == st);
            assert(a0.take(j + 1).last() == st);
            assert(src@ =~= a0.skip(j + 1));
            crate::quest_flow::lemma_list_has_views_pub(ids@, st.quest_id@);
        }
        if !contains_text(&ids, st.quest_id.as_str()) {
            keep.push(st);
        }
        j = j + 1;
    }
    proof { assert(a0.take(j as int) =~= a0); }
    player.active_quests = keep;
}


/// The statuses whose quest id is not among `ids`, by their views.
pub open spec fn without_ids_views(sts: Seq<QuestStatusView>, ids: Seq<Seq<char>>) -> Seq<QuestStatusView>
    decreases sts.len(),
{
    if sts.len() == 0 {
        seq![]
    } else {
        let prev = without_ids_views(sts.drop_last(), ids);
        if ids.contains(sts.last().quest_id) { prev } else { prev.push(sts.last()) }
    }
}

pub proof fn lemma_without_ids_views(sts: Seq<PlayerQuestStatus>, ids: Seq<Seq<char>>)
    ensures
        status_views(without_ids(sts, ids)) == without_ids_views(status_views(sts), ids),
    decreases sts.len(),
{
    if sts.len() > 0 {
        lemma_without_ids_views(sts.drop_last(), ids);
        assert(status_views(sts).drop_last() =~= status_views(sts.drop_last()));
        assert(status_views(without_ids(sts.drop_last(), ids).push(sts.last())) =~= status_views(without_ids(sts.drop_last(), ids)).push(sts.last()@));
    } else {
        assert(status_views(without_ids(sts, ids)) =~= seq![]);
    }
}

/// What the instant `attack` of the game server needs to stay in range: the
/// kill can be counted, and the kill quests it completes can be paid.
pub open spec fn defeat_fits(p: Player, reg: Registry<Quest>, monster: Seq<char>) -> bool {
    let sv1 = statuses_after_kill(status_views(p.active_quests@), reg, monster);
    &&& kills_fit(status_views(p.active_quests@), reg, monster)
    &&& has_room_for(p, rewards_total(kills_done(sv1, reg), reg))
}

/// What the instant `attack` on `target` in room `room` does to player
/// `p0` and world `w0`, and what it says (see `defeat_in_room`).
pub open spec fn defeat_done(p0: Player, w0: WorldState, p1: Player, w1: WorldState, room: Seq<char>, target: Seq<char>,
    msgs: Seq<MessageView>) -> bool {
    match npc_target(w0, room, target) {
        None => p1 == p0 && w1 == w0 && msgs == seq![MessageView::Error(plain_msg("你在这没看到 "@ + target + "。"@))],
        Some(n) => if !attackable(w0.static_data.npc_prototypes@, n.prototype_id) {
            p1 == p0 && w1 == w0 && msgs == seq![MessageView::Error(plain_msg(friendly_refusal(n.name@)))]
        } else {
            let reg = w0.static_data.quests;
            let monster = decimal(n.prototype_id as nat);
            let sv1 = statuses_after_kill(status_views(p0.active_quests@), reg, monster);
            let done = kills_done(sv1, reg);
            let ups = kill_payouts(done, reg);
            let report = all_kill_msgs(status_views(p0.active_quests@), reg, monster);
            &&& msgs == seq![MessageView::Description(plain_msg("你对着 "@ + n.name@ + " 发起猛攻，几个回合后将其击败了！"@))]
                + (if plain_of(report).len() > 0 { seq![MessageView::Info(report)] } else { seq![] })
                + infos(paid_notices(p0, ups))
            &&& status_views(p1.active_quests@) == without_ids_views(sv1, ids_of(done))
            &&& views_of(p1.completed_quests@) == add_names(views_of(p0.completed_quests@), ids_of(done))
            &&& p1 == (Player { active_quests: p1.active_quests, completed_quests: p1.completed_quests, ..paid(p0, ups) })
            &&& npc_pos(w0.dynamic_data.npcs@, n.instance_id) >= 0
            &&& w1.dynamic_data.npcs@ == w0.dynamic_data.npcs@.remove(npc_pos(w0.dynamic_data.npcs@, n.instance_id))
            &&& w1.dynamic_data.players == w0.dynamic_data.players
            &&& w1.dynamic_data.room_items == w0.dynamic_data.room_items
            &&& w1.static_data == w0.static_data
        },
    }
}

/// The instant `attack`: the monster found in the room (by name or number)
/// is defeated outright. The kill is counted for the kill quests, the kill
/// quests completed are paid and closed, and the monster leaves the world.
/// Nothing found, or a friendly NPC, gives an error.
pub fn defeat_in_room(player: &mut Player, target: &str, current_room_id: &str, world: &mut WorldState) -> (msgs: Vec<ServerMessage>)
    requires
        old(world).wf(),
        npc_target(*old(world), current_room_id@, target@) matches Some(n) ==>
            defeat_fits(*old(player), old(world).static_data.quests, decimal(n.prototype_id as nat)),
    ensures
        final(world).wf(),
        defeat_done(*old(player), *old(world), *final(player), *final(world), current_room_id@, target@, messages_view(msgs@)),
{
    let mut msgs: Vec<ServerMessage> = Vec::new();
    let npcs = world.get_npcs_in_room(current_room_id);
    let idx = match find_npc(&npcs, target) {
        Some(i) => i,
        None => {
            let mut line = "你在这没看到 ".to_string();
            line.append(target);
            line.append("。");
            msgs.push(error_text(line));
            proof { assert(messages_view(msgs@) =~= seq![MessageView::Error(plain_msg("你在这没看到 "@ + target@ + "。"@))]); }
            return msgs;
        },
    };
    proof { lemma_npc_index(npcs@, target@); }
    let npc = &npcs[idx];
    if !can_attack(world, npc.prototype_id) {
        let mut line = npc.name.clone();
        line.append(" 看起来很友善，你下不了手。");
        msgs.push(error_text(line));
        proof { assert(messages_view(msgs@) =~= seq![MessageView::Error(plain_msg(friendly_refusal(npc.name@)))]); }
        return msgs;
    }
    let mut line = "你对着 ".to_string();
    line.append(npc.name.as_str());
    line.append(" 发起猛攻，几个回合后将其击败了！");
    let mut d = Text::new();
    d.push_string(line, plain_style());
    msgs.push(ServerMessage::Description { payload: d });
    let monster = u64_text(npc.prototype_id as u64);
    let ghost p0 = *player;
    let report = player.on_kill(monster.as_str(), &world.static_data.quests);
    let shown = report.plain();
    if shown.unicode_len() > 0 {
        msgs.push(ServerMessage::Info { payload: report });
    }
    let ghost m1 = messages_view(msgs@);
    let ghost p1 = *player;
    pay_kill_quests(player, &world.static_data.quests, &mut msgs);
    proof {
        lemma_without_ids_views(p1.active_quests@, ids_of(kills_done(status_views(p1.active_quests@), world.static_data.quests)));
        let ups = kill_payouts(kills_done(status_views(p1.active_quests@), world.static_data.quests), world.static_data.quests);
        crate::commands::movement::lemma_paid_notices_frame(p1, p0, ups);
        crate::world::world_state::lemma_seen_npc_pos(*world, current_room_id@, idx as int);
    }
    world.remove_npc(npc.instance_id);
    proof {
        let n = npcs@[idx as int];
        assert(npc_target(*old(world), current_room_id@, target@) == Some(n));
        assert(messages_view(msgs@) =~= seq![MessageView::Description(plain_msg("你对着 "@ + n.name@ + " 发起猛攻，几个回合后将其击败了！"@))]
            + (if plain_of(report@).len() > 0 { seq![MessageView::Info(report@)] } else { seq![] })
            + infos(paid_notices(p0, kill_payouts(kills_done(status_views(p1.active_quests@), world.static_data.quests), world.static_data.quests))));
    }
    msgs
}


/// The arithmetic of a blow (with or without a skill) at an NPC stays in range, for every roll.
pub open spec fn blow_fits(p: Player, n: Npc, skill: Option<SkillTemplate>) -> bool {
    let a = player_stats(p);
    let d = npc_stats(n);
    &&& attack_fits(a, d, skill)
    &&& forall|h: int, c: int| 0 <= h < 100 && 0 <= c < 100 ==> match #[trigger] attack_outcome(a, d, skill, h, c) {
        CombatResultView::Hit { damage, .. } => fits_i32(n.hp - damage),
        _ => true,
    }
}

/// The messages of a blow in the game server: its log, then the defeat.
pub open spec fn blow_msgs(r: CombatResultView, dead: bool, name: Seq<char>) -> Seq<MessageView> {
    match r {
        CombatResultView::Hit { log, .. } => seq![MessageView::Description(log)]
            + (if dead { seq![MessageView::Description(defeat_line(name))] } else { seq![] }),
        CombatResultView::TargetKilled { log, .. } => seq![MessageView::Description(log), MessageView::Description(defeat_line(name))],
        CombatResultView::Miss { log } => seq![MessageView::Description(log)],
        _ => seq![],
    }
}

/// Applies a blow's result to NPC `npc` (a copy of one in the world) and reports it.
fn apply_blow(npc: &Npc, result: CombatResult, world: &mut WorldState, msgs: &mut Vec<ServerMessage>) -> (dead: bool)
    requires
        old(world).wf(),
        npc_pos(old(world).dynamic_data.npcs@, npc.instance_id) >= 0,
        old(world).dynamic_data.npcs@[npc_pos(old(world).dynamic_data.npcs@, npc.instance_id)] == *npc,
        match result@ {
            CombatResultView::Hit { damage, .. } => fits_i32(npc.hp - damage),
            _ => true,
        },
    ensures
        struck(*old(world), *final(world), npc.instance_id, result@, dead),
        messages_view(final(msgs)@) == messages_view(old(msgs)@) + blow_msgs(result@, dead, npc.name@),
{
    let ghost rv = result@;
    let dead = strike(world, npc.instance_id, &result);
    let kind: u8 = match &result {
        CombatResult::Hit { .. } => 0,
        CombatResult::TargetKilled { .. } => 1,
        CombatResult::Miss { .. } => 2,
        _ => 3,
    };
    let ghost m0 = messages_view(msgs@);
    if kind < 3 {
        let log = log_of(result);
        msgs.push(ServerMessage::Description { payload: log });
        if (kind == 0 && dead) || kind == 1 {
            let mut t = Text::new();
            t.push_plain("你击败了");
            t.push(npc.name.as_str(), color(Color::Yellow));
            t.push_plain("！");
            assert(t@ =~= defeat_line(npc.name@));
            msgs.push(ServerMessage::Description { payload: t });
        }
    }
    proof { assert(messages_view(msgs@) =~= m0 + blow_msgs(rv, dead, npc.name@)); }
    dead
}

/// Strikes NPC `npc` (a copy of one in the world) with a plain blow of the
/// player, and reports it.
fn strike_npc(player: &Player, npc: &Npc, world: &mut WorldState, msgs: &mut Vec<ServerMessage>)
    requires
        old(world).wf(),
        npc_pos(old(world).dynamic_data.npcs@, npc.instance_id) >= 0,
        old(world).dynamic_data.npcs@[npc_pos(old(world).dynamic_data.npcs@, npc.instance_id)] == *npc,
        blow_fits(*player, *npc, None),
    ensures
        exists|h: int, c: int, dead: bool| 0 <= h < 100 && 0 <= c < 100
            && #[trigger] struck(*old(world), *final(world), npc.instance_id, attack_outcome(player_stats(*player), npc_stats(*npc), None, h, c), dead)
            && messages_view(final(msgs)@) == messages_view(old(msgs)@) + blow_msgs(attack_outcome(player_stats(*player), npc_stats(*npc), None, h, c), dead, npc.name@),
{
    let attacker = player_combat_stats(player);
    let defender = npc_combat_stats(npc);
    let result = resolve_attack(&attacker, &defender, None);
    let ghost rv = result@;
    let ghost hc = choose|h: int, c: int| 0 <= h < 100 && 0 <= c < 100
        && result@ == attack_outcome(attacker, defender, None, h, c);
    proof {
        let hh = hc.0;
        let cc = hc.1;
        assert(match #[trigger] attack_outcome(player_stats(*player), npc_stats(*npc), None, hh, cc) {
            CombatResultView::Hit { damage, .. } => fits_i32(npc.hp - damage),
            _ => true,
        });
    }
    let dead = apply_blow(npc, result, world, msgs);
    proof {
        assert(struck(*old(world), *world, npc.instance_id, attack_outcome(player_stats(*player), npc_stats(*npc), None, hc.0, hc.1), dead));
    }
}

/// What the `kill` of `target` in room `room` by player `p` does to world
/// `w0`, and what it says (see `blow_in_room`).
pub open spec fn blow_done(p: Player, w0: WorldState, w1: WorldState, room: Seq<char>, target: Seq<char>, msgs: Seq<MessageView>) -> bool {
    match npc_target(w0, room, target) {
        None => w1 == w0 && msgs == seq![MessageView::Error(plain_msg("这里没有 "@ + target + "。"@))],
        Some(n) => exists|h: int, c: int, dead: bool| 0 <= h < 100 && 0 <= c < 100
            && #[trigger] struck(w0, w1, n.instance_id, attack_outcome(player_stats(p), npc_stats(n), None, h, c), dead)
            && msgs == blow_msgs(attack_outcome(player_stats(p), npc_stats(n), None, h, c), dead, n.name@),
    }
}

/// The `kill` of the game server: one blow without a skill at the NPC found
/// in the room (by name or number); an error when there is none.
pub fn blow_in_room(player: &Player, target: &str, current_room_id: &str, world: &mut WorldState) -> (msgs: Vec<ServerMessage>)
    requires
        old(world).wf(),
        npc_target(*old(world), current_room_id@, target@) matches Some(n) ==> blow_fits(*player, n, None),
    ensures
        final(world).wf(),
        blow_done(*player, *old(world), *final(world), current_room_id@, target@, messages_view(msgs@)),
{
    let mut msgs: Vec<ServerMessage> = Vec::new();
    let npcs = world.get_npcs_in_room(current_room_id);
    let idx = match find_npc(&npcs, target) {
        Some(i) => i,
        None => {
            let mut line = "这里没有 ".to_string();
            line.append(target);
            line.append("。");
            msgs.push(error_text(line));
            proof { assert(messages_view(msgs@) =~= seq![MessageView::Error(plain_msg("这里没有 "@ + target@ + "。"@))]); }
            return msgs;
        },
    };
    proof {
        lemma_npc_index(npcs@, target@);
        crate::world::world_state::lemma_seen_npc_pos(*world, current_room_id@, idx as int);
        assert(messages_view(msgs@) =~= seq![]);
    }
    strike_npc(player, &npcs[idx], world, &mut msgs);
    proof {
        assert(npc_target(*old(world), current_room_id@, target@) == Some(npcs@[idx as int]));
        assert(forall|x: Seq<MessageView>| seq![] + x == x) by {
            assert forall|x: Seq<MessageView>| seq![] + x == x by { assert(Seq::<MessageView>::empty() + x =~= x); }
        }
    }
    msgs
}


/// What casting skill `skill` (at `target`) in room `room` does to player
/// `p0` and world `w0`, and what it says (see `cast_in_room`).
pub open spec fn cast_done(p0: Player, w0: WorldState, p1: Player, w1: WorldState, room: Seq<char>, skill: Seq<char>,
    target: Option<Seq<char>>, msgs: Seq<MessageView>) -> bool {
    match w0.static_data.skills.lookup(skill) {
        None => p1 == p0 && w1 == w0 && msgs == seq![MessageView::Error(plain_msg("没有找到技能: "@ + skill))],
        Some(sk) => if p0.qi < sk.cost_qi {
            p1 == p0 && w1 == w0 && msgs == seq![MessageView::Error(plain_msg(qi_refusal(sk.cost_qi)))]
        } else if heals(sk) {
            &&& p1 == after_heal(p0, sk)
            &&& w1 == w0
            &&& msgs == seq![MessageView::Description(heal_log(p0.name@, sk.name@, heal_amount(sk, player_stats(p0))))]
        } else {
            match cast_target(w0, room, target) {
                None => p1 == p0 && w1 == w0 && msgs == seq![MessageView::Error(plain_msg("你的目标不存在。"@))],
                Some(n) => {
                    &&& p1 == (Player { qi: (p0.qi - sk.cost_qi) as u32, ..p0 })
                    &&& exists|h: int, c: int, dead: bool| 0 <= h < 100 && 0 <= c < 100
                        && #[trigger] struck(w0, w1, n.instance_id, attack_outcome(player_stats(p0), npc_stats(n), Some(sk), h, c), dead)
                        && msgs == blow_msgs(attack_outcome(player_stats(p0), npc_stats(n), Some(sk), h, c), dead, n.name@)
                },
            }
        },
    }
}

/// The `cast` of the game server: an unknown skill, too little qi, or no
/// target found give an error; a healing skill heals the caster; any other
/// skill spends its qi on one blow at the NPC named.
pub fn cast_in_room(player: &mut Player, skill_id: &str, target: Option<&str>, current_room_id: &str, world: &mut WorldState)
    -> (msgs: Vec<ServerMessage>)
    requires
        old(world).wf(),
        old(world).static_data.skills.lookup(skill_id@) matches Some(sk) ==> (
            old(player).qi >= sk.cost_qi ==> if heals(sk) {
                heal_fits(*old(player), sk)
            } else {
                cast_target(*old(world), current_room_id@, opt_str(target)) matches Some(n) ==> blow_fits(*old(player), n, Some(sk))
            }),
    ensures
        final(world).wf(),
        cast_done(*old(player), *old(world), *final(player), *final(world), current_room_id@, skill_id@, opt_str(target), messages_view(msgs@)),
{
    let mut msgs: Vec<ServerMessage> = Vec::new();
    let skill = match world.static_data.skills.get(skill_id) {
        Some(s) => s,
        None => {
            let mut line = "没有找到技能: ".to_string();
            line.append(skill_id);
            msgs.push(error_text(line));
            proof { assert(messages_view(msgs@) =~= seq![MessageView::Error(plain_msg("没有找到技能: "@ + skill_id@))]); }
            return msgs;
        },
    };
    if player.qi < skill.cost_qi || (skill.is_magic && skill.base_damage < 0) {
        let ghost sk = *skill;
        let r = handle_cast(player, skill_id, target, current_room_id, world);
        match r {
            Some(m) => {
                msgs.push(m);
            },
            None => {
                proof { assert(false); }
            },
        }
        proof { assert(messages_view(msgs@) =~= seq![msgs@[0]@]); }
        return msgs;
    }
    let t = match target {
        Some(t) => t,
        None => {
            msgs.push(error("你的目标不存在。"));
            proof { assert(messages_view(msgs@) =~= seq![MessageView::Error(plain_msg("你的目标不存在。"@))]); }
            return msgs;
        },
    };
    let npcs = world.get_npcs_in_room(current_room_id);
    let idx = match find_npc(&npcs, t) {
        Some(i) => i,
        None => {
            msgs.push(error("你的目标不存在。"));
            proof { assert(messages_view(msgs@) =~= seq![MessageView::Error(plain_msg("你的目标不存在。"@))]); }
            return msgs;
        },
    };
    proof {
        lemma_npc_index(npcs@, t@);
        crate::world::world_state::lemma_seen_npc_pos(*world, current_room_id@, idx as int);
        assert(messages_view(msgs@) =~= seq![]);
        assert(cast_target(*old(world), current_room_id@, opt_str(target)) == Some(npcs@[idx as int]));
    }
    let ghost p0 = *player;
    let npc = &npcs[idx];
    let attacker = player_combat_stats(player);
    let defender = npc_combat_stats(npc);
    let result = resolve_attack(&attacker, &defender, Some(skill));
    player.qi = player.qi - skill.cost_qi;
    let ghost hc = choose|h: int, c: int| 0 <= h < 100 && 0 <= c < 100
        && result@ == attack_outcome(attacker, defender, opt_skill(Some(skill)), h, c);
    proof {
        let hh = hc.0;
        let cc = hc.1;
        assert(match #[trigger] attack_outcome(player_stats(p0), npc_stats(*npc), Some(*skill), hh, cc) {
            CombatResultView::Hit { damage, .. } => fits_i32(npc.hp - damage),
            _ => true,
        });
    }
    let ghost rv = result@;
    let dead = apply_blow(npc, result, world, &mut msgs);
    proof {
        assert(struck(*old(world), *world, npc.instance_id, attack_outcome(player_stats(p0), npc_stats(*npc), Some(*skill), hc.0, hc.1), dead));
    }
    proof {
        assert(forall|x: Seq<MessageView>| seq![] + x == x) by {
            assert forall|x: Seq<MessageView>| seq![] + x == x by { assert(Seq::<MessageView>::empty() + x =~= x); }
        }
    }
    msgs
}


/// The list of commands as the game server shows it.
pub open spec fn command_help() -> Seq<(Seq<char>, Style)> {
    let head = Style { color: Some(Color::Cyan), bold: true };
    seq![
        ("----【 可用指令 (Commands) 】----"@, Style { color: Some(Color::Yellow), bold: true }),
        ("\n\n  "@, spec_plain_style()), ("【通用】"@, head),
        ("\n  look              - 查看当前环境。\n  score/status      - 查看你的角色状态。\n  inventory/i       - 查看你的背包。\n  say <内容>        - 对房间里的所有人说话。\n\n  "@, spec_plain_style()),
        ("【移动】"@, head),
        ("\n  go <方向>         - 向指定方向移动 (north, south, east, west... 或 n, s, e, w...)\n\n  "@, spec_plain_style()),
        ("【互动】"@, head),
        ("\n  talk <目标>       - 与NPC对话。\n  attack <目标>     - 攻击一个目标。\n  get/take <物品>   - 从地上捡起物品。\n\n  "@, spec_plain_style()),
        ("【任务】"@, head),
        ("\n  quest/qs          - 查看当前任务状态。\n  accept <任务ID>   - 从告示牌等处接受任务。\n\n  "@, spec_plain_style()),
        ("【其它】"@, head),
        ("\n  rest              - 原地休息以恢复体力。\n  work              - 在特定地点劳动以赚取奖励。\n  who               - 查看当前在线的玩家。\n"@, spec_plain_style()),
    ]
}

/// The list of commands as the game server shows it.
pub fn command_help_text() -> (t: Text)
    ensures
        t@ == command_help(),
{
    let head = Style { color: Some(Color::Cyan), bold: true };
    let mut t = Text::new();
    t.push("----【 可用指令 (Commands) 】----", Style { color: Some(Color::Yellow), bold: true });
    t.push_plain("\n\n  ");
    t.push("【通用】", head);
    t.push_plain("\n  look              - 查看当前环境。\n  score/status      - 查看你的角色状态。\n  inventory/i       - 查看你的背包。\n  say <内容>        - 对房间里的所有人说话。\n\n  ");
    t.push("【移动】", head);
    t.push_plain("\n  go <方向>         - 向指定方向移动 (north, south, east, west... 或 n, s, e, w...)\n\n  ");
    t.push("【互动】", head);
    t.push_plain("\n  talk <目标>       - 与NPC对话。\n  attack <目标>     - 攻击一个目标。\n  get/take <物品>   - 从地上捡起物品。\n\n  ");
    t.push("【任务】", head);
    t.push_plain("\n  quest/qs          - 查看当前任务状态。\n  accept <任务ID>   - 从告示牌等处接受任务。\n\n  ");
    t.push("【其它】", head);
    t.push_plain("\n  rest              - 原地休息以恢复体力。\n  work              - 在特定地点劳动以赚取奖励。\n  who               - 查看当前在线的玩家。\n");
    assert(t@ =~= command_help());
    t
}

/// The board's notice as the game server shows it.
pub open spec fn server_board_notice(lines: Seq<Seq<char>>) -> Seq<(Seq<char>, Style)> {
    seq![
        ("\n 告示牌上贴着以下悬赏："@, spec_color_bold(Color::Yellow)),
        ("\n "@ + joined_text(lines, "\n"@) + "\n"@, spec_plain_style()),
        ("\n 输入 'accept <任务ID>' 即可接取."@, Style { color: Some(Color::White), bold: true }),
    ]
}

/// The answer to `look` in room `room`: its description, then the bounties
/// open to the player where the room has a quest board.
pub open spec fn look_msgs(w: WorldState, player_id: u64, room: Seq<char>, p: Player) -> Seq<MessageView> {
    seq![MessageView::Description(look_description(w, player_id, room))]
        + (if board_in(w, room) && bounties(w.static_data.quests.entries@, p).len() > 0 {
            seq![MessageView::Info(server_board_notice(bounties(w.static_data.quests.entries@, p)))]
        } else {
            seq![]
        })
}

/// The game server's `look`: the room, then the bounties of a board in it.
pub fn look_around(player_id: u64, current_room_id: &str, world: &WorldState, player: &Player) -> (msgs: Vec<ServerMessage>)
    ensures
        messages_view(msgs@) == look_msgs(*world, player_id, current_room_id@, *player),
{
    let mut msgs: Vec<ServerMessage> = Vec::new();
    msgs.push(ServerMessage::Description { payload: describe_room_for(player_id, current_room_id, world) });
    if has_board(world, current_room_id) {
        let lines = bounty_lines(world, player);
        if lines.len() > 0 {
            let mut t = Text::new();
            t.push("\n 告示牌上贴着以下悬赏：", color_bold(Color::Yellow));
            let mut body = "\n ".to_string();
            body.append(join_strings(&lines, "\n").as_str());
            body.append("\n");
            t.push_string(body, plain_style());
            t.push("\n 输入 'accept <任务ID>' 即可接取.", Style { color: Some(Color::White), bold: true });
            assert(t@ =~= server_board_notice(views_of(lines@)));
            msgs.push(ServerMessage::Info { payload: t });
        }
    }
    assert(messages_view(msgs@) =~= seq![MessageView::Description(look_description(*world, player_id, current_room_id@))]
        + (if board_in(*world, current_room_id@) && bounties(world.static_data.quests.entries@, *player).len() > 0 {
            seq![MessageView::Info(server_board_notice(bounties(world.static_data.quests.entries@, *player)))]
        } else {
            seq![]
        }));
    msgs
}

/// The lines the game server tells a day of work with.
pub open spec fn server_work_lines() -> Seq<&'static str> {
    seq![
        "“你抡起斧头劈向枯木，震得虎口生疼，但隐约间你捕捉到了风的律动。”",
        "“汗水顺着脸颊流下，你进入了一种奇妙的节奏，呼吸逐渐与竹林的沙沙声同步。”",
        "“每一次挥砍都带起片片竹叶，你感到体内有一丝微弱的气流正随着动作缓缓升起。”",
    ]
}

/// The game server's `work`: `work_with_line` with one of its three lines picked at random.
pub fn work_here(player: &mut Player, current_room_id: &str) -> (msgs: Vec<ServerMessage>)
    requires
        work_fits(*old(player)),
    ensures
        exists|k: int| 0 <= k < 3 && #[trigger] work_done(*old(player), *final(player), current_room_id@, server_work_lines()[k]@, messages_view(msgs@)),
{
    let pool: [&str; 3] = [
        "“你抡起斧头劈向枯木，震得虎口生疼，但隐约间你捕捉到了风的律动。”",
        "“汗水顺着脸颊流下，你进入了一种奇妙的节奏，呼吸逐渐与竹林的沙沙声同步。”",
        "“每一次挥砍都带起片片竹叶，你感到体内有一丝微弱的气流正随着动作缓缓升起。”",
    ];
    proof { assert(pool@ =~= server_work_lines()); }
    let line = match choose_from(pool.as_slice()) {
        Some(l) => l,
        None => pool[0],
    };
    let ghost k = choose|k: int| 0 <= k < 3 && server_work_lines()[k] == line;
    let msgs = work_with_line(player, current_room_id, line);
    assert(work_done(*old(player), *player, current_room_id@, server_work_lines()[k]@, messages_view(msgs@)));
    msgs
}


/// What a command produced: the messages for its sender, and a move to
/// announce (the room left, the room entered, and the mover's name).
pub struct CommandOutcome {
    pub messages: Vec<ServerMessage>,
    pub movement: Option<(String, String, Option<String>)>,
}

/// The position of the session of player `pid`, or -1.
pub open spec fn session_index(ss: Seq<PlayerSession>, pid: u64) -> int
    decreases ss.len(),
{
    if ss.len() == 0 {
        -1
    } else if ss[0].player.id == pid {
        0
    } else {
        let r = session_index(ss.drop_first(), pid);
        if r < 0 { -1 } else { r + 1 }
    }
}

pub proof fn lemma_session_index(ss: Seq<PlayerSession>, pid: u64)
    ensures
        -1 <= session_index(ss, pid) < ss.len(),
        session_index(ss, pid) >= 0 ==> ss[session_index(ss, pid)].player.id == pid,
        session_index(ss, pid) >= 0 ==> forall|j: int| 0 <= j < session_index(ss, pid) ==> ss[j].player.id != pid,
        session_index(ss, pid) < 0 ==> forall|j: int| 0 <= j < ss.len() ==> ss[j].player.id != pid,
    decreases ss.len(),
{
    if ss.len() > 0 {
        lemma_session_index(ss.drop_first(), pid);
        if ss[0].player.id != pid {
            assert forall|j: int| 1 <= j < ss.len() implies ss[j] == ss.drop_first()[j - 1] by {}
        }
    }
}

impl GameState {
    /// The world is well formed and each player has one session.
    pub open spec fn wf(&self) -> bool {
        &&& self.world_state.wf()
        &&& forall|i: int, j: int| 0 <= i < j < self.player_sessions@.len()
            ==> self.player_sessions@[i].player.id != self.player_sessions@[j].player.id
    }

    /// The position of the session of player `pid`.
    pub fn find_session(&self, pid: u64) -> (r: Option<usize>)
        ensures
            r is None <==> session_index(self.player_sessions@, pid) < 0,
            r matches Some(i) ==> i as int == session_index(self.player_sessions@, pid) && i < self.player_sessions@.len(),
    {
        proof { lemma_session_index(self.player_sessions@, pid); }
        let mut i: usize = 0;
        while i < self.player_sessions.len()
            invariant
                i <= self.player_sessions.len(),
                forall|j: int| 0 <= j < i ==> self.player_sessions@[j].player.id != pid,
            decreases self.player_sessions.len() - i,
        {
            if self.player_sessions[i].player.id == pid {
                proof {
                    lemma_session_index(self.player_sessions@, pid);
                    let k = session_index(self.player_sessions@, pid);
                    if k < 0 {
                        assert(self.player_sessions@[i as int].player.id != pid);
                    } else if k < i {
                        assert(self.player_sessions@[k].player.id == pid);
                    } else if k > i {
                        assert(self.player_sessions@[i as int].player.id != pid);
                    }
                }
                return Some(i);
            }
            i = i + 1;
        }
        None
    }
}

/// What a command needs to stay in range, for the player who sends it.
pub open spec fn command_fits(state: GameState, player_id: u64, command: CommandView) -> bool {
    let i = session_index(state.player_sessions@, player_id);
    i >= 0 ==> {
        let p = state.player_sessions@[i].player;
        let w = state.world_state;
        let room = room_of(w, player_id);
        match command {
            CommandView::Attack { target } => npc_target(w, room, target) matches Some(n)
                ==> defeat_fits(p, w.static_data.quests, decimal(n.prototype_id as nat)),
            CommandView::Kill { target } => npc_target(w, room, target) matches Some(n) ==> blow_fits(p, n, None),
            CommandView::Cast { skill, target } => w.static_data.skills.lookup(skill) matches Some(sk) ==> (
                p.qi >= sk.cost_qi ==> if heals(sk) {
                    heal_fits(p, sk)
                } else {
                    cast_target(w, room, target) matches Some(n) ==> blow_fits(p, n, Some(sk))
                }),
            CommandView::Work => work_fits(p),
            CommandView::Go { .. } => has_room_for(p, rewards_total(status_views(p.active_quests@), w.static_data.quests))
                && steps_fit(status_views(p.active_quests@)),
            CommandView::Talk { target } => npc_target(w, room, target) matches Some(n) ==> talk_fits(p, w.static_data.quests, n),
            _ => true,
        }
    }
}

/// Whether a command can be given while resting.
pub open spec fn allowed_resting(c: CommandView) -> bool {
    c is Look || c is Score || c is Quest || c is Inventory || c is Rest || c is Help
}

/// What a command does to the player `p0` (its input time already noted)
/// standing in room `room` of world `w0`: the player and world after it,
/// the messages for the sender, and the move to announce.
pub open spec fn command_done(c: CommandView, p0: Player, w0: WorldState, p1: Player, w1: WorldState, room: Seq<char>,
    player_id: u64, user: Option<String>, msgs: Seq<MessageView>, movement: Option<(String, String, Option<String>)>) -> bool {
    let reg = w0.static_data.quests;
    let unchanged = p1 == p0 && w1 == w0 && movement is None;
    match c {
        CommandView::Help => unchanged && msgs == seq![MessageView::Info(command_help())],
        CommandView::Rest => w1 == w0 && movement is None && msgs.len() == 1 && rested(p0, p1, msgs[0]),
        CommandView::Attack { target } => movement is None && defeat_done(p0, w0, p1, w1, room, target, msgs),
        CommandView::Kill { target } => p1 == p0 && movement is None && blow_done(p0, w0, w1, room, target, msgs),
        CommandView::Cast { skill, target } => movement is None && cast_done(p0, w0, p1, w1, room, skill, target, msgs),
        CommandView::Work => w1 == w0 && movement is None
            && exists|k: int| 0 <= k < 3 && #[trigger] work_done(p0, p1, room, server_work_lines()[k]@, msgs),
        CommandView::Go { direction } => match exit_from(w0, room, direction) {
            None => unchanged && msgs == seq![MessageView::Error(plain_msg("You can't go that way."@))],
            Some(to) => if p0.stamina < 1 {
                unchanged && msgs == seq![MessageView::Error(plain_msg("你太累了，走不动了。"@))]
            } else {
                &&& moved_to(w0, w1, player_id, to, user)
                &&& movement matches Some(mv) && mv.0@ == room && mv.1@ == to && mv.2 == user
                &&& exists|d: Seq<(Seq<char>, Style)>, r: Seq<Seq<(Seq<char>, Style)>>|
                    #[trigger] arrival(tired_by_one(p0), p1, reg, w0, to, d, r) && msgs == infos(r) + seq![MessageView::Description(d)]
            },
        },
        CommandView::Talk { target } => w1 == w0 && movement is None && match npc_target(w0, room, target) {
            None => p1 == p0 && msgs == seq![MessageView::Error(plain_msg("这里没有 "@ + target + "。"@))],
            Some(n) => exists|d: Seq<(Seq<char>, Style)>, r: Option<Seq<(Seq<char>, Style)>>|
                #[trigger] talk_outcome(p0, p1, reg, n, d, r)
                && msgs == (match r { Some(t) => seq![MessageView::Info(t)], None => seq![] }) + seq![MessageView::Description(d)],
        },
        CommandView::Accept { quest_id } => w1 == w0 && movement is None && if board_in(w0, room) && !reg.has(quest_id) {
            p1 == p0 && msgs == seq![MessageView::Error(plain_msg("没有找到这个任务。"@))]
        } else {
            msgs.len() == 1 && accept_done(p0, p1, w0, room, quest_id, Some(msgs[0]))
        },
        CommandView::Get { item } => movement is None
            && if item_found(items_in(w0.dynamic_data.room_items, room), w0.static_data.item_prototypes@, item) is None {
            p1 == p0 && w1 == w0 && msgs == seq![MessageView::Error(plain_msg("这里没有 "@ + item + "。"@))]
        } else {
            msgs.len() == 1 && get_done(p0, w0, p1, w1, room, item, Some(msgs[0]))
        },
        CommandView::Inventory => unchanged && msgs == seq![inventory_msg(p0, w0.static_data.item_prototypes@)],
        CommandView::Quest => unchanged && msgs == seq![quest_msg(p0, reg)],
        CommandView::Look => unchanged && msgs == look_msgs(w0, player_id, room, p0),
        CommandView::Score => unchanged && msgs == seq![MessageView::Description(score_msgs(p0))],
        CommandView::Unknown(cmd) => unchanged && msgs == (if cmd == "heartbeat"@ {
            seq![]
        } else {
            seq![MessageView::Error(plain_msg("Unknown command: "@ + cmd))]
        }),
        _ => unchanged && msgs == seq![MessageView::Info(plain_msg("Command not yet implemented."@))],
    }
}

/// A message list of one error.
fn one_error(t: &str) -> (msgs: Vec<ServerMessage>)
    ensures
        messages_view(msgs@) == seq![MessageView::Error(plain_msg(t@))],
{
    let mut msgs: Vec<ServerMessage> = Vec::new();
    msgs.push(error(t));
    assert(messages_view(msgs@) =~= seq![MessageView::Error(plain_msg(t@))]);
    msgs
}


/// Taking the first of the notices left moves one step along them.
proof fn lemma_notice_taken(r0: Seq<Text>, r1: Seq<Text>, rv: Seq<Seq<(Seq<char>, Style)>>, k: int)
    requires
        r0.len() > 0,
        r1 == r0.remove(0),
        0 <= k <= rv.len(),
        texts_view(r0) == rv.skip(k),
    ensures
        k < rv.len(),
        r0[0]@ == rv[k],
        texts_view(r1) == rv.skip(k + 1),
{
    assert(texts_view(r0).len() == r0.len());
    assert(texts_view(r0)[0] == r0[0]@);
    assert forall|j: int| 0 <= j < r1.len() implies #[trigger] texts_view(r1)[j] == rv.skip(k + 1)[j] by {
        assert(r1[j] == r0[j + 1]);
        assert(texts_view(r0)[j + 1] == r0[j + 1]@);
        assert(rv.skip(k)[j + 1] == rv[k + 1 + j]);
    }
    assert(texts_view(r1) =~= rv.skip(k + 1));
}

/// Showing the next notice extends the messages by it.
proof fn lemma_notice_shown(m0: Seq<ServerMessage>, m1: Seq<ServerMessage>, rv: Seq<Seq<(Seq<char>, Style)>>, k: int)
    requires
        0 <= k < rv.len(),
        messages_view(m0) == infos(rv.take(k)),
        m1.len() == m0.len() + 1,
        forall|j: int| 0 <= j < m0.len() ==> m1[j] == m0[j],
        m1[m0.len() as int]@ == MessageView::Info(rv[k]),
    ensures
        messages_view(m1) == infos(rv.take(k + 1)),
{
    assert(messages_view(m0).len() == m0.len());
    assert forall|j: int| 0 <= j < m1.len() implies #[trigger] messages_view(m1)[j] == infos(rv.take(k + 1))[j] by {
        if j < m0.len() {
            assert(messages_view(m0)[j] == m0[j]@);
            assert(infos(rv.take(k))[j] == infos(rv.take(k + 1))[j]);
        }
    }
    assert(messages_view(m1) =~= infos(rv.take(k + 1)));
}

/// Carries out a command of a logged-in player standing in room `room_id`
/// (see `handle_command`).
#[verifier::rlimit(60)]
fn run_command(session: &mut PlayerSession, world: &mut WorldState, command: Command, player_id: u64, room_id: &str, now: u64)
    -> (out: CommandOutcome)
    requires
        old(world).wf(),
        room_of(*old(world), player_id) == room_id@,
        old(session).player.last_input_time == now,
        ({
            let p = old(session).player;
            let w = *old(world);
            let room = room_id@;
            match command@ {
                CommandView::Attack { target } => npc_target(w, room, target) matches Some(n)
                    ==> defeat_fits(p, w.static_data.quests, decimal(n.prototype_id as nat)),
                CommandView::Kill { target } => npc_target(w, room, target) matches Some(n) ==> blow_fits(p, n, None),
                CommandView::Cast { skill, target } => w.static_data.skills.lookup(skill) matches Some(sk) ==> (
                    p.qi >= sk.cost_qi ==> if heals(sk) {
                        heal_fits(p, sk)
                    } else {
                        cast_target(w, room, target) matches Some(n) ==> blow_fits(p, n, Some(sk))
                    }),
                CommandView::Work => work_fits(p),
                CommandView::Go { .. } => has_room_for(p, rewards_total(status_views(p.active_quests@), w.static_data.quests))
                    && steps_fit(status_views(p.active_quests@)),
                CommandView::Talk { target } => npc_target(w, room, target) matches Some(n) ==> talk_fits(p, w.static_data.quests, n),
                _ => true,
            }
        }),
    ensures
        final(world).wf(),
        final(session).player.id == old(session).player.id,
        final(session).user_id == old(session).user_id,
        final(session).player.last_input_time == now,
        command_done(command@, old(session).player, *old(world), final(session).player, *final(world), room_id@, player_id,
            old(session).user_id, messages_view(out.messages@), out.movement),
{
    let mut out = CommandOutcome { messages: Vec::new(), movement: None };
    let room = room_id;
    let ghost cv = command@;
    let ghost p0 = session.player;
    let ghost w0 = *world;
    let ghost user0 = session.user_id;
    match command {
        Command::Help => {
            out.messages.push(ServerMessage::Info { payload: command_help_text() });
            proof { assert(messages_view(out.messages@) =~= seq![MessageView::Info(command_help())]); }
        },
        Command::Rest => {
            out.messages.push(handle_rest(&mut session.player));
            proof { assert(messages_view(out.messages@) =~= seq![out.messages@[0]@]); }
        },
        Command::Attack { target } => {
            out.messages = defeat_in_room(&mut session.player, target.as_str(), room, world);
            proof {
                let n = npc_target(w0, room@, target@);
                if n is Some {
                    let reg = w0.static_data.quests;
                    let sv1 = statuses_after_kill(status_views(p0.active_quests@), reg, decimal(n->0.prototype_id as nat));
                    lemma_paid_frame(p0, kill_payouts(kills_done(sv1, reg), reg));
                }
            }
        },
        Command::Kill { target } => {
            out.messages = blow_in_room(&session.player, target.as_str(), room, world);
        },
        Command::Cast { skill, target } => {
            let t: Option<&str> = match &target {
                Some(x) => Some(x.as_str()),
                None => None,
            };
            proof { assert(opt_str(t) == cv->Cast_target); }
            out.messages = cast_in_room(&mut session.player, skill.as_str(), t, room, world);
        },
        Command::Work => {
            out.messages = work_here(&mut session.player, room);
            proof {
                let k = choose|k: int| 0 <= k < 3 && #[trigger] work_done(p0, session.player, room@, server_work_lines()[k]@, messages_view(out.messages@));
                assert(work_done(p0, session.player, room@, server_work_lines()[k]@, messages_view(out.messages@)));
            }
        },
        Command::Go { direction } => {
            let user = session.user_id.clone();
            proof {
                if user0 is Some {
                    assert(cloned::<String>(user0->0, user->0));
                }
                assert(user == user0);
            }
            proof {
                lemma_paid_frame(crate::commands::movement::tired_by_one(p0),
                    crate::commands::movement::move_updates(status_views(p0.active_quests@), world.static_data.quests,
                        crate::commands::movement::exit_from(*world, room@, direction@)->0));
            }
            match go_through(&mut session.player, direction.as_str(), room, world, player_id, user) {
                MoveOutcome::NoExit => {
                    out.messages.push(error("You can't go that way."));
                    proof { assert(messages_view(out.messages@) =~= seq![out.messages@[0]@]); }
                },
                MoveOutcome::Tired => {
                    out.messages.push(error("你太累了，走不动了。"));
                    proof { assert(messages_view(out.messages@) =~= seq![out.messages@[0]@]); }
                },
                MoveOutcome::Moved { description, rewards, from, to } => {
                    let ghost rv = texts_view(rewards@);
                    let ghost dv = description@;
                    let mut rewards = rewards;
                    let ghost mut k: int = 0;
                    proof { assert(rv.skip(0) =~= rv); assert(messages_view(out.messages@) =~= infos(rv.take(0))); }
                    while rewards.len() > 0
                        invariant
                            world.wf(),
                            0 <= k <= rv.len(),
                            texts_view(rewards@) == rv.skip(k),
                            messages_view(out.messages@) == infos(rv.take(k)),
                        decreases rewards.len(),
                    {
                        let ghost r0 = rewards@;
                        let ghost m0 = out.messages@;
                        let t = rewards.remove(0);
                        proof { lemma_notice_taken(r0, rewards@, rv, k); }
                        out.messages.push(ServerMessage::Info { payload: t });
                        proof {
                            lemma_notice_shown(m0, out.messages@, rv, k);
                            k = k + 1;
                        }
                    }
                    proof { assert(k == rv.len()); assert(rv.take(k) =~= rv); }
                    out.messages.push(ServerMessage::Description { payload: description });
                    let user2 = session.user_id.clone();
                    proof {
                        if user0 is Some {
                            assert(cloned::<String>(user0->0, user2->0));
                        }
                    }
                    proof {
                        assert(arrival(tired_by_one(p0), session.player, w0.static_data.quests, w0, to@, dv, rv));
                        assert(messages_view(out.messages@) =~= infos(rv) + seq![MessageView::Description(dv)]);
                        assert(session.player.last_input_time == now);
                    }
                    out.movement = Some((from, to, user2));
                    session.player.last_input_time = now;
                },
            }
        },
        Command::Talk { target } => {
            let npcs = world.get_npcs_in_room(room);
            match find_npc(&npcs, target.as_str()) {
                Some(i) => {
                    proof { lemma_npc_index(npcs@, target@); }
                    let (payload, reward) = talk_to(&mut session.player, &npcs[i], &world.static_data.quests);
                    let ghost rw = match &reward { Some(t) => Some(t@), None => None };
                    let ghost pv = payload@;
                    proof { assert(talk_outcome(p0, session.player, w0.static_data.quests, npcs@[i as int], pv, rw)); }
                    match reward {
                        Some(r) => {
                            out.messages.push(ServerMessage::Info { payload: r });
                        },
                        None => {},
                    }
                    out.messages.push(ServerMessage::Description { payload });
                    proof {
                        assert(messages_view(out.messages@) =~= (match rw { Some(t) => seq![MessageView::Info(t)], None => seq![] })
                            + seq![MessageView::Description(pv)]);
                    }
                },
                None => {
                    let mut line = "这里没有 ".to_string();
                    line.append(target.as_str());
                    line.append("。");
                    out.messages.push(error_text(line));
                    proof { assert(messages_view(out.messages@) =~= seq![out.messages@[0]@]); }
                },
            }
        },
        Command::Accept { quest_id } => {
            match handle_accept(&mut session.player, quest_id.as_str(), room, world) {
                Some(m) => {
                    out.messages.push(m);
                },
                None => {
                    out.messages.push(error("没有找到这个任务。"));
                },
            }
            proof { assert(messages_view(out.messages@) =~= seq![out.messages@[0]@]); }
        },
        Command::Get { item } => {
            match handle_get(&mut session.player, item.as_str(), room, world) {
                Some(m) => {
                    out.messages.push(m);
                },
                None => {
                    let mut line = "这里没有 ".to_string();
                    line.append(item.as_str());
                    line.append("。");
                    out.messages.push(error_text(line));
                },
            }
            proof { assert(messages_view(out.messages@) =~= seq![out.messages@[0]@]); }
        },
        Command::Inventory => {
            out.messages.push(handle_inventory(&session.player, world));
            proof { assert(messages_view(out.messages@) =~= seq![out.messages@[0]@]); }
        },
        Command::Quest => {
            out.messages.push(handle_quest(&session.player, world));
            proof { assert(messages_view(out.messages@) =~= seq![out.messages@[0]@]); }
        },
        Command::Look => {
            out.messages = look_around(player_id, room, world, &session.player);
        },
        Command::Score => {
            out.messages.push(handle_score(&session.player, &world.static_data.config));
            proof { assert(messages_view(out.messages@) =~= seq![out.messages@[0]@]); }
        },
        Command::Unknown(cmd) => {
            if !same_text(cmd.as_str(), "heartbeat") {
                let mut line = "Unknown command: ".to_string();
                line.append(cmd.as_str());
                out.messages.push(error_text(line));
                proof { assert(messages_view(out.messages@) =~= seq![out.messages@[0]@]); }
            } else {
                proof { assert(messages_view(out.messages@) =~= seq![]); }
            }
        },
        _ => {
            out.messages.push(info("Command not yet implemented."));
            proof { assert(messages_view(out.messages@) =~= seq![out.messages@[0]@]); }
        },
    }
    out
}

/// A command of a player, as the game server carries it out at time `now`.
/// `who` lists the players online. A player without a session gets nothing;
/// before login, an error. Otherwise the input time is noted; a player
/// without a known location or in an unknown room gets an error; a resting
/// player may only look, check score, quests and inventory, rest or ask for
/// help. Each command then goes to its handler.
pub fn handle_command(state: &mut GameState, command: Command, player_id: u64, now: u64) -> (out: CommandOutcome)
    requires
        old(state).wf(),
        command_fits(*old(state), player_id, command@),
    ensures
        final(state).wf(),
        command is Who ==> *final(state) == *old(state) && out.movement is None && messages_view(out.messages@) == seq![MessageView::Description(
            who_list_msgs(ranked(who_rows(old(state).world_state, old(state).player_sessions@)), true))],
        !(command is Who) && session_index(old(state).player_sessions@, player_id) < 0 ==> *final(state) == *old(state) && out.messages@.len() == 0
            && out.movement is None,
        !(command is Who) && session_index(old(state).player_sessions@, player_id) >= 0 ==> ({
            let i = session_index(old(state).player_sessions@, player_id);
            let s0 = old(state).player_sessions@[i];
            let s1 = final(state).player_sessions@[i];
            &&& final(state).player_sessions@.len() == old(state).player_sessions@.len()
            &&& forall|j: int| 0 <= j < old(state).player_sessions@.len() && j != i ==> final(state).player_sessions@[j] == old(state).player_sessions@[j]
            &&& s1.user_id == s0.user_id
            &&& (s0.user_id is None ==> s1 == s0 && *final(state) == *old(state)
                && messages_view(out.messages@) == seq![MessageView::Error(plain_msg("You must login first."@))])
            &&& (s0.user_id is Some ==> s1.player.last_input_time == now)
            &&& (s0.user_id is Some && loc_of(old(state).world_state.dynamic_data.players@, player_id) is None ==>
                s1.player == (Player { last_input_time: now, ..s0.player }) && final(state).world_state == old(state).world_state
                && messages_view(out.messages@) == seq![MessageView::Error(plain_msg("Critical error: Your location is unknown."@))])
            &&& (s0.user_id is Some && loc_of(old(state).world_state.dynamic_data.players@, player_id) is Some
                && old(state).world_state.static_data.rooms.lookup(room_of(old(state).world_state, player_id)) is None ==>
                s1.player == (Player { last_input_time: now, ..s0.player }) && final(state).world_state == old(state).world_state
                && messages_view(out.messages@) == seq![MessageView::Error(plain_msg("Your location is corrupted. Please reconnect."@))])
            &&& (s0.user_id is Some && old(state).world_state.static_data.rooms.lookup(room_of(old(state).world_state, player_id)) is Some
                && loc_of(old(state).world_state.dynamic_data.players@, player_id) is Some
                && s0.player.is_resting && !allowed_resting(command@) ==>
                s1.player == (Player { last_input_time: now, ..s0.player }) && final(state).world_state == old(state).world_state
                && messages_view(out.messages@) == seq![MessageView::Error(plain_msg("你正在休息中，无法执行此操作。"@))])
            &&& (s0.user_id is Some && old(state).world_state.static_data.rooms.lookup(room_of(old(state).world_state, player_id)) is Some
                && loc_of(old(state).world_state.dynamic_data.players@, player_id) is Some
                && !(s0.player.is_resting && !allowed_resting(command@)) ==>
                command_done(command@, Player { last_input_time: now, ..s0.player }, old(state).world_state, s1.player,
                    final(state).world_state, room_of(old(state).world_state, player_id), player_id, s0.user_id,
                    messages_view(out.messages@), out.movement))
            &&& (!(s0.user_id is Some && old(state).world_state.static_data.rooms.lookup(room_of(old(state).world_state, player_id)) is Some
                && loc_of(old(state).world_state.dynamic_data.players@, player_id) is Some
                && !(s0.player.is_resting && !allowed_resting(command@))) ==> out.movement is None)
        }),
{
    let mut out = CommandOutcome { messages: Vec::new(), movement: None };
    if let Command::Who = command {
        out.messages.push(ServerMessage::Description { payload: generate_who_list(state, true) });
        proof { assert(messages_view(out.messages@) =~= seq![out.messages@[0]@]); }
        return out;
    }
    let idx = match state.find_session(player_id) {
        Some(i) => i,
        None => return out,
    };
    if state.player_sessions[idx].user_id.is_none() {
        out.messages = one_error("You must login first.");
        return out;
    }
    let ghost s0 = state.player_sessions@[idx as int];
    let ghost old_sessions = state.player_sessions@;
    let mut session = state.player_sessions.remove(idx);
    session.player.last_input_time = now;
    let ghost p_now = session.player;
    let world = &mut state.world_state;
    let room_id = match world.get_player_room_id(player_id) {
        Some(r) => r,
        None => {
            out.messages = one_error("Critical error: Your location is unknown.");
            state.player_sessions.insert(idx, session);
            proof { assert(state.player_sessions@ =~= old_sessions.update(idx as int, state.player_sessions@[idx as int])); }
            return out;
        },
    };
    proof { assert(room_id@ == room_of(*world, player_id)); }
    if world.get_room(room_id.as_str()).is_none() {
        out.messages = one_error("Your location is corrupted. Please reconnect.");
        state.player_sessions.insert(idx, session);
        proof { assert(state.player_sessions@ =~= old_sessions.update(idx as int, state.player_sessions@[idx as int])); }
        return out;
    }
    let free_while_resting = match &command {
        Command::Look | Command::Score | Command::Quest | Command::Inventory | Command::Rest | Command::Help => true,
        _ => false,
    };
    if session.player.is_resting && !free_while_resting {
        out.messages = one_error("你正在休息中，无法执行此操作。");
        state.player_sessions.insert(idx, session);
        proof { assert(state.player_sessions@ =~= old_sessions.update(idx as int, state.player_sessions@[idx as int])); }
        return out;
    }
    let dispatched = run_command(&mut session, world, command, player_id, room_id.as_str(), now);
    out.messages = dispatched.messages;
    out.movement = dispatched.movement;
    state.player_sessions.insert(idx, session);
    proof {
        assert(state.player_sessions@ =~= old_sessions.update(idx as int, state.player_sessions@[idx as int]));
        assert forall|a: int, b: int| 0 <= a < b < state.player_sessions@.len()
            implies state.player_sessions@[a].player.id != state.player_sessions@[b].player.id by {
            assert(state.player_sessions@[a].player.id == old_sessions[a].player.id);
            assert(state.player_sessions@[b].player.id == old_sessions[b].player.id);
        }
    }
    out
}

} // verus!
