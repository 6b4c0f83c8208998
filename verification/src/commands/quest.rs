//! The quest commands: `quest` lists the quests in progress, `accept` takes
//! one from a quest board.

use vstd::prelude::*;
use vstd::string::*;
use crate::game::{MessageView, ServerMessage, info, error, plain_msg, msg_opt};
use crate::styled::{Text, Style, Color, spec_plain_style, spec_color_bold, plain_style, color_bold, same_text,
    contains_text, list_has, decimal, u64_text};
use crate::world::world_player::{Player, QuestStatusView, counts_view, counter_of, counter_value, status_views,
    has_active_quest};
use crate::world::world_state::{WorldState, npcs_in};
use crate::world_model::{Quest, Registry};

verus! {

/// What a quest status shows of its progress: kills counted against the
/// target for a kill quest, else the description of the current step (or
/// that all steps are done).
pub open spec fn step_text(st: QuestStatusView, q: Quest) -> Seq<char> {
    if q.quest_type@ == "kill"@ {
        q.description@ + ": "@ + decimal(counter_of(st.kill_counts, q.target_id@) as nat) + "/"@
            + decimal(match q.target_count { Some(n) => n as nat, None => 0nat })
    } else if st.current_step < q.steps@.len() {
        q.steps@[st.current_step as int].description@
    } else {
        "已完成所有步骤。"@
    }
}

/// A line per quest in progress whose quest is known.
pub open spec fn quest_lines(sts: Seq<QuestStatusView>, reg: Registry<Quest>) -> Seq<(Seq<char>, Style)>
    decreases sts.len(),
{
    if sts.len() == 0 {
        seq![]
    } else {
        let prev = quest_lines(sts.drop_last(), reg);
        match reg.lookup(sts.last().quest_id) {
            Some(q) => prev + seq![("- "@ + q.name@ + ": "@ + step_text(sts.last(), q) + "\n"@, spec_plain_style())],
            None => prev,
        }
    }
}

/// The progress text of one quest status.
fn step_text_of(st: &crate::world::world_player::PlayerQuestStatus, q: &Quest) -> (r: String)
    ensures
        r@ == step_text(st@, *q),
{
    if same_text(q.quest_type.as_str(), "kill") {
        let mut r = q.description.clone();
        r.append(": ");
        r.append(u64_text(counter_value(&st.kill_counts, q.target_id.as_str()) as u64).as_str());
        r.append("/");
        let target: u32 = match q.target_count { Some(n) => n, None => 0 };
        r.append(u64_text(target as u64).as_str());
        r
    } else if (st.current_step as usize) < q.steps.len() {
        q.steps[st.current_step as usize].description.clone()
    } else {
        "已完成所有步骤。".to_string()
    }
}

/// The answer to `quest`: none in progress, or a line per quest.
pub open spec fn quest_msg(p: Player, reg: Registry<Quest>) -> MessageView {
    if p.active_quests@.len() == 0 {
        MessageView::Info(plain_msg("当前没有任何进行中的任务。"@))
    } else {
        MessageView::Description(seq![("进行中的任务："@, spec_color_bold(Color::Yellow)), ("\n"@, spec_plain_style())]
            + quest_lines(status_views(p.active_quests@), reg))
    }
}

/// The quests in progress: none, or a line per quest.
pub fn handle_quest(player: &Player, world: &WorldState) -> (m: ServerMessage)
    ensures
        m@ == quest_msg(*player, world.static_data.quests),
{
    if player.active_quests.len() == 0 {
        return info("当前没有任何进行中的任务。");
    }
    let mut t = Text::new();
    t.push("进行中的任务：", color_bold(Color::Yellow));
    t.push_plain("\n");
    let ghost head = t@;
    assert(head =~= seq![("进行中的任务："@, spec_color_bold(Color::Yellow)), ("\n"@, spec_plain_style())]);
    let ghost sts = status_views(player.active_quests@);
    let mut i: usize = 0;
    while i < player.active_quests.len()
        invariant
            i <= player.active_quests.len(),
            sts == status_views(player.active_quests@),
            t@ == head + quest_lines(sts.take(i as int), world.static_data.quests),
        decreases player.active_quests.len() - i,
    {
        proof {
            assert(sts.take(i + 1).drop_last() =~= sts.take(i as int));
            assert(sts.take(i + 1).last() == player.active_quests@[i as int]@);
        }
        let st = &player.active_quests[i];
        match world.static_data.quests.get(st.quest_id.as_str()) {
            Some(q) => {
                let mut line = "- ".to_string();
                line.append(q.name.as_str());
                line.append(": ");
                line.append(step_text_of(st, q).as_str());
                line.append("\n");
                t.push_string(line, plain_style());
                proof { assert(t@ =~= head + quest_lines(sts.take(i + 1), world.static_data.quests)); }
            },
            None => {},
        }
        i = i + 1;
    }
    proof { assert(sts.take(i as int) =~= sts); }
    ServerMessage::Description { payload: t }
}

/// Whether a quest board (NPC prototype 2000) stands in the room.
pub open spec fn board_in(world: WorldState, room: Seq<char>) -> bool {
    exists|i: int| 0 <= i < npcs_in(world.dynamic_data.npcs@, room).len()
        && #[trigger] npcs_in(world.dynamic_data.npcs@, room)[i].prototype_id == 2000
}

/// Whether a quest board stands in the room.
pub fn has_board(world: &WorldState, room_id: &str) -> (r: bool)
    ensures
        r == board_in(*world, room_id@),
{
    let ns = world.get_npcs_in_room(room_id);
    let mut i: usize = 0;
    while i < ns.len()
        invariant
            i <= ns.len(),
            ns@ == npcs_in(world.dynamic_data.npcs@, room_id@),
            forall|k: int| 0 <= k < i ==> ns@[k].prototype_id != 2000,
        decreases ns.len() - i,
    {
        if ns[i].prototype_id == 2000 {
            return true;
        }
        i = i + 1;
    }
    false
}

/// The notice of a quest taken.
pub open spec fn accepted_notice(name: Seq<char>) -> Seq<(Seq<char>, Style)> {
    seq![("[任务接取] 你接取了任务："@ + name + "。输入 'qs' 可查看详细进度。"@, spec_color_bold(Color::Yellow))]
}

/// What `accept` of quest `qid` in room `room` does to player `p0`, and its
/// answer (`None` for an unknown quest at a board).
pub open spec fn accept_done(p0: Player, p1: Player, w: WorldState, room: Seq<char>, qid: Seq<char>, m: Option<MessageView>) -> bool {
    if !board_in(w, room) {
        p1 == p0 && m == Some(MessageView::Error(plain_msg("这里没有告示牌，去野外入口找找看吧。"@)))
    } else if !w.static_data.quests.has(qid) {
        p1 == p0 && m is None
    } else {
        let q = w.static_data.quests.lookup(qid)->0;
        if list_has(p0.completed_quests@, qid) {
            p1 == p0 && m == Some(MessageView::Error(plain_msg("你已经完成了这个任务，不能重复接取。"@)))
        } else if has_active_quest(p0.active_quests@, qid) {
            p1 == p0 && m == Some(MessageView::Error(plain_msg("你已经接取过这个任务了。"@)))
        } else if list_has(p0.completed_quests@, q.id@) || has_active_quest(p0.active_quests@, q.id@) {
            p1 == p0 && m == Some(MessageView::Error(plain_msg("接取任务失败。"@)))
        } else {
            &&& p1.active_quests@.len() == p0.active_quests@.len() + 1
            &&& p1.active_quests@.take(p0.active_quests@.len() as int) == p0.active_quests@
            &&& p1.active_quests@.last()@ == (QuestStatusView { quest_id: q.id@, current_step: 0, is_completed: false, kill_counts: seq![] })
            &&& p1 == (Player { active_quests: p1.active_quests, ..p0 })
            &&& m == Some(MessageView::Info(accepted_notice(q.name@)))
        }
    }
}

/// Takes quest `quest_id` from a board in the room. No board, a finished
/// or already taken quest, or a refusal each give an error; an unknown
/// quest gives nothing.
pub fn handle_accept(player: &mut Player, quest_id: &str, current_room_id: &str, world: &WorldState) -> (m: Option<ServerMessage>)
    ensures
        accept_done(*old(player), *final(player), *world, current_room_id@, quest_id@, msg_opt(m)),
{
    if !has_board(world, current_room_id) {
        return Some(error("这里没有告示牌，去野外入口找找看吧。"));
    }
    let quest = match world.static_data.quests.get(quest_id) {
        Some(q) => q,
        None => return None,
    };
    if contains_text(&player.completed_quests, quest_id) {
        return Some(error("你已经完成了这个任务，不能重复接取。"));
    }
    if player.has_quest(quest_id) {
        return Some(error("你已经接取过这个任务了。"));
    }
    if player.accept_quest(quest) {
        let mut line = "[任务接取] 你接取了任务：".to_string();
        line.append(quest.name.as_str());
        line.append("。输入 'qs' 可查看详细进度。");
        let mut t = Text::new();
        t.push_string(line, color_bold(Color::Yellow));
        assert(t@ =~= accepted_notice(quest.name@));
        Some(ServerMessage::Info { payload: t })
    } else {
        Some(error("接取任务失败。"))
    }
}

} // verus!
