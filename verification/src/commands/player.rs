//! The player's own commands: `rest`, `work`, `inventory` and `score`.

use vstd::prelude::*;
use vstd::string::*;
use crate::chance::choose_from;
use crate::game::{MessageView, ServerMessage, info, error, plain_msg, messages_view};
use crate::styled::{Text, Style, Color, spec_plain_style, spec_color_bold, plain_style, color_bold, same_text};
use crate::world::world_player::{Player, PlayerQuestStatus, QuestStatusView, counts_view, counter_of, counter_bumped,
    status_views, bump_counter, score_msgs};
use crate::world::world_state::WorldState;
use crate::world_model::{ItemPrototype, WorldConfig};

verus! {

/// What `rest` does: the resting flag flips, and the player is told which way.
pub open spec fn rested(p0: Player, p1: Player, m: MessageView) -> bool {
    &&& p1 == (Player { is_resting: !p0.is_resting, ..p0 })
    &&& m == MessageView::Info(plain_msg(if p1.is_resting {
            "你开始原地休息，逐渐恢复精力。"@
        } else {
            "你站了起来，感觉精力充沛了一些。"@
        }))
}

/// Rest toggles: sitting down to rest, or standing up again.
pub fn handle_rest(player: &mut Player) -> (m: ServerMessage)
    ensures
        rested(*old(player), *final(player), m@),
{
    player.is_resting = !player.is_resting;
    if player.is_resting {
        info("你开始原地休息，逐渐恢复精力。")
    } else {
        info("你站了起来，感觉精力充沛了一些。")
    }
}

/// Whether work can be done in a room.
pub open spec fn work_place(room: Seq<char>) -> bool {
    room == "bamboo_forest"@ || room == "spirit_spring"@
}

/// The work counter of the village chief's quest, and the statuses, after a
/// day of work: each status of quest `q102` at step 2 raises the counter,
/// and moves to step 3 once the counter reaches 5.
pub open spec fn work_progress(sts: Seq<QuestStatusView>, count: int) -> (Seq<QuestStatusView>, int, bool)
    decreases sts.len(),
{
    if sts.len() == 0 {
        (seq![], count, false)
    } else {
        let (prev, c, done) = work_progress(sts.drop_last(), count);
        let st = sts.last();
        if st.quest_id == "q102"@ && st.current_step == 2 {
            let c2 = c + 1;
            if c2 >= 5 {
                (prev.push(QuestStatusView { current_step: 3, ..st }), c2, true)
            } else {
                (prev.push(st), c2, done)
            }
        } else {
            (prev.push(st), c, done)
        }
    }
}

/// The counters after the counter `key` is raised `n` times.
pub open spec fn bumped_times(s: Seq<(Seq<char>, u32)>, key: Seq<char>, n: nat) -> Seq<(Seq<char>, u32)>
    decreases n,
{
    if n == 0 { s } else { counter_bumped(bumped_times(s, key, (n - 1) as nat), key) }
}

/// How many statuses of `sts` work counts for.
pub open spec fn work_matches(sts: Seq<QuestStatusView>) -> nat
    decreases sts.len(),
{
    if sts.len() == 0 {
        0
    } else {
        work_matches(sts.drop_last()) + (if sts.last().quest_id == "q102"@ && sts.last().current_step == 2 { 1nat } else { 0nat })
    }
}

/// The amounts work adds stay within their types.
pub open spec fn work_fits(p: Player) -> bool {
    &&& p.wallet.shell + 20 <= u64::MAX
    &&& p.exp + 5 <= u64::MAX
    &&& p.potential + 2 <= u64::MAX
    &&& counter_of(counts_view(p.quest_counts@), "q102_work"@) + p.active_quests@.len() <= u32::MAX
}

pub open spec fn reward_notice() -> Seq<(Seq<char>, Style)> {
    seq![("获得奖励：灵贝+20，修为+5，潜能+2"@, spec_color_bold(Color::Green))]
}

pub open spec fn insight_notice() -> Seq<(Seq<char>, Style)> {
    seq![("【机缘】随着最后一斧劈下，你感到一股清凉的气流顺着指尖流向全身。你对天地的感悟达到了新的高度！请回广场向村长报告。"@, spec_color_bold(Color::Magenta))]
}

/// The player after a day of work: 15 stamina spent, 20 shells, 5
/// experience and 2 potential gained, and the chief's quest advanced.
pub open spec fn after_work(p: Player, sts: Seq<QuestStatusView>, counts: Seq<(Seq<char>, u32)>) -> bool {
    let prog = work_progress(status_views(p.active_quests@), counter_of(counts_view(p.quest_counts@), "q102_work"@));
    &&& sts == prog.0
    &&& counts == bumped_times(counts_view(p.quest_counts@), "q102_work"@, work_matches(status_views(p.active_quests@)))
}

/// The first counter of a key sits where it sat when only values change.
proof fn lemma_counter_index_keys(a: Seq<(Seq<char>, u32)>, b: Seq<(Seq<char>, u32)>, key: Seq<char>)
    requires
        a.len() == b.len(),
        forall|j: int| 0 <= j < a.len() ==> a[j].0 == b[j].0,
    ensures
        counter_index(a, key) == counter_index(b, key),
    decreases a.len(),
{
    if a.len() > 0 {
        lemma_counter_index_keys(a.drop_last(), b.drop_last(), key);
        assert(a.last().0 == b.last().0);
    }
}

/// Raising a counter raises its value by one.
proof fn lemma_counter_bump(t: Seq<(Seq<char>, u32)>, key: Seq<char>)
    requires
        counter_of(t, key) < u32::MAX,
    ensures
        counter_of(counter_bumped(t, key), key) == counter_of(t, key) + 1,
{
    crate::world::world_player::lemma_counter_index(t, key);
    let u = counter_bumped(t, key);
    if counter_index(t, key) >= 0 {
        lemma_counter_index_keys(t, u, key);
    } else {
        assert(u.drop_last() =~= t);
        assert(u.last().0 == key);
    }
}

proof fn lemma_bumped_value(s: Seq<(Seq<char>, u32)>, key: Seq<char>, n: nat)
    requires
        counter_of(s, key) + n <= u32::MAX,
    ensures
        counter_of(bumped_times(s, key, n), key) == counter_of(s, key) + n,
    decreases n,
{
    if n > 0 {
        lemma_bumped_value(s, key, (n - 1) as nat);
        lemma_counter_bump(bumped_times(s, key, (n - 1) as nat), key);
    }
}

use crate::world::world_player::counter_index;

/// What a day of work does with the given line: outside the bamboo forest
/// and the spirit spring, or with less than 15 stamina, nothing but an
/// error; otherwise the stamina is spent, the gains are added, the chief's
/// quest advances, and the line, the reward notice and (when the quest
/// reached its next step) the insight are told.
pub open spec fn work_done(p0: Player, p1: Player, room: Seq<char>, line: Seq<char>, msgs: Seq<MessageView>) -> bool {
    if !work_place(room) {
        p1 == p0 && msgs == seq![MessageView::Error(plain_msg("这里似乎没有什么值得你劳作的地方，换个环境试试？"@))]
    } else if p0.stamina < 15 {
        p1 == p0 && msgs == seq![MessageView::Error(plain_msg("你已经筋疲力尽了，稍微休息（rest）一下吧。"@))]
    } else {
        let prog = work_progress(status_views(p0.active_quests@), counter_of(counts_view(p0.quest_counts@), "q102_work"@));
        &&& after_work(p0, status_views(p1.active_quests@), counts_view(p1.quest_counts@))
        &&& p1 == (Player {
            stamina: (p0.stamina - 15) as u32,
            wallet: crate::world::world_player::Wallet { shell: (p0.wallet.shell + 20) as u64, ..p0.wallet },
            exp: (p0.exp + 5) as u64,
            potential: (p0.potential + 2) as u64,
            active_quests: p1.active_quests,
            quest_counts: p1.quest_counts,
            ..p0
        })
        &&& msgs == seq![MessageView::Description(plain_msg(line)), MessageView::Info(reward_notice())]
            + (if prog.2 { seq![MessageView::Description(insight_notice())] } else { seq![] })
    }
}

/// A day of work with the line of description already chosen.
pub fn work_with_line(player: &mut Player, current_room_id: &str, line: &str) -> (msgs: Vec<ServerMessage>)
    requires
        work_fits(*old(player)),
    ensures
        work_done(*old(player), *final(player), current_room_id@, line@, messages_view(msgs@)),
{
    let mut messages: Vec<ServerMessage> = Vec::new();
    if !same_text(current_room_id, "bamboo_forest") && !same_text(current_room_id, "spirit_spring") {
        messages.push(error("这里似乎没有什么值得你劳作的地方，换个环境试试？"));
        proof { assert(messages_view(messages@) =~= seq![MessageView::Error(plain_msg("这里似乎没有什么值得你劳作的地方，换个环境试试？"@))]); }
        return messages;
    }
    if !player.consume_stamina(15) {
        messages.push(error("你已经筋疲力尽了，稍微休息（rest）一下吧。"));
        proof { assert(messages_view(messages@) =~= seq![MessageView::Error(plain_msg("你已经筋疲力尽了，稍微休息（rest）一下吧。"@))]); }
        return messages;
    }
    player.wallet.shell = player.wallet.shell + 20;
    player.exp = player.exp + 5;
    player.potential = player.potential + 2;
    let mut d = Text::new();
    d.push_plain(line);
    messages.push(ServerMessage::Description { payload: d });
    let mut r = Text::new();
    r.push("获得奖励：灵贝+20，修为+5，潜能+2", color_bold(Color::Green));
    messages.push(ServerMessage::Info { payload: r });
    let ghost sts0 = status_views(player.active_quests@);
    let ghost c0 = counter_of(counts_view(player.quest_counts@), "q102_work"@);
    let ghost counts0 = counts_view(player.quest_counts@);
    let ghost p1 = *player;
    let mut finished = false;
    let mut i: usize = 0;
    proof {
        assert(sts0.take(0) =~= Seq::<QuestStatusView>::empty());
        reveal_strlit("q102_work");
    }
    while i < player.active_quests.len()
        invariant
            i <= player.active_quests.len(),
            sts0.len() == player.active_quests.len(),
            c0 + sts0.len() <= u32::MAX,
            c0 == counter_of(counts0, "q102_work"@),
            ({
                let prog = work_progress(sts0.take(i as int), c0);
                &&& status_views(player.active_quests@).take(i as int) == prog.0
                &&& finished == prog.2
                &&& counter_of(counts_view(player.quest_counts@), "q102_work"@) == prog.1
                &&& counts_view(player.quest_counts@) == bumped_times(counts0, "q102_work"@, work_matches(sts0.take(i as int)))
            }),
            prog_bound(sts0.take(i as int), c0),
            forall|j: int| i <= j < sts0.len() ==> #[trigger] player.active_quests@[j]@ == sts0[j],
            *player == (Player { active_quests: player.active_quests, quest_counts: player.quest_counts, ..p1 }),
        decreases player.active_quests.len() - i,
    {
        proof {
            assert(sts0.take(i + 1).drop_last() =~= sts0.take(i as int));
            assert(sts0.take(i + 1).last() == sts0[i as int]);
            lemma_prog_bound(sts0.take(i + 1), c0);
        }
        let ghost before = status_views(player.active_quests@);
        let ghost counts_before = counts_view(player.quest_counts@);
        proof {
            assert(player.active_quests@[i as int]@ == sts0[i as int]);
            assert(before[i as int] == sts0[i as int]);
            lemma_bumped_value(counts0, "q102_work"@, work_matches(sts0.take(i as int)));
        }
        if same_text(player.active_quests[i].quest_id.as_str(), "q102") && player.active_quests[i].current_step == 2 {
            let count = bump_counter(&mut player.quest_counts, "q102_work");
            if count >= 5 {
                let st = &mut player.active_quests[i];
                st.current_step = st.current_step + 1;
                finished = true;
            }
        }
        proof {
            let after = status_views(player.active_quests@);
            assert(after.len() == before.len());
            assert forall|j: int| 0 <= j < i implies after[j] == before[j] by {
                assert(player.active_quests@[j]@ == after[j]);
            }
            assert(after.take(i + 1) =~= work_progress(sts0.take(i + 1), c0).0);
            lemma_bumped_value(counts0, "q102_work"@, work_matches(sts0.take(i + 1)));
        }
        i = i + 1;
    }
    proof {
        assert(sts0.take(i as int) =~= sts0);
        assert(status_views(player.active_quests@).take(i as int) =~= status_views(player.active_quests@));
    }
    if finished {
        let mut t = Text::new();
        t.push("【机缘】随着最后一斧劈下，你感到一股清凉的气流顺着指尖流向全身。你对天地的感悟达到了新的高度！请回广场向村长报告。", color_bold(Color::Magenta));
        messages.push(ServerMessage::Description { payload: t });
    }
    proof {
        let prog = work_progress(sts0, c0);
        assert(messages_view(messages@) =~= seq![
            MessageView::Description(plain_msg(line@)),
            MessageView::Info(reward_notice()),
        ] + (if prog.2 { seq![MessageView::Description(insight_notice())] } else { seq![] }));
    }
    messages
}

/// The counter stays below `u32::MAX` through the work steps.
pub open spec fn prog_bound(sts: Seq<QuestStatusView>, c: int) -> bool {
    &&& work_progress(sts, c).1 == c + work_matches(sts)
    &&& work_matches(sts) <= sts.len()
}

proof fn lemma_prog_bound(sts: Seq<QuestStatusView>, c: int)
    ensures
        prog_bound(sts, c),
    decreases sts.len(),
{
    if sts.len() > 0 {
        lemma_prog_bound(sts.drop_last(), c);
    }
}

/// The lines a day of work is told with.
pub open spec fn work_lines() -> Seq<&'static str> {
    seq![
        "你抡起斧头劈向枯木，震得虎口生疼，但隐约间你捕捉到了风的律动。",
        "汗水顺着脸颊流下，你进入了一种奇妙的节奏，呼吸逐渐与竹林的沙沙声同步。",
        "每一次挥砍都带起片片竹叶，你感到体内有一丝微弱的气流正随着动作缓缓升起。",
    ]
}

/// A day of work, told with one of three lines picked at random: what
/// `work_with_line` does with one of the lines of `work_lines`.
pub fn handle_work(player: &mut Player, current_room_id: &str) -> (msgs: Vec<ServerMessage>)
    requires
        work_fits(*old(player)),
    ensures
        exists|k: int| 0 <= k < 3 && #[trigger] work_done(*old(player), *final(player), current_room_id@, work_lines()[k]@, messages_view(msgs@)),
{
    let pool: [&str; 3] = [
        "你抡起斧头劈向枯木，震得虎口生疼，但隐约间你捕捉到了风的律动。",
        "汗水顺着脸颊流下，你进入了一种奇妙的节奏，呼吸逐渐与竹林的沙沙声同步。",
        "每一次挥砍都带起片片竹叶，你感到体内有一丝微弱的气流正随着动作缓缓升起。",
    ];
    proof { assert(pool@ =~= work_lines()); }
    let line = match choose_from(pool.as_slice()) {
        Some(l) => l,
        None => pool[0],
    };
    let ghost k = choose|k: int| 0 <= k < 3 && work_lines()[k] == line;
    let msgs = work_with_line(player, current_room_id, line);
    assert(work_done(*old(player), *player, current_room_id@, work_lines()[k]@, messages_view(msgs@)));
    msgs
}

/// The name of item `id`, or 未知物品 when it has no prototype.
pub open spec fn item_name(protos: Map<u32, ItemPrototype>, id: u32) -> Seq<char> {
    if protos.contains_key(id) { protos[id].name@ } else { "未知物品"@ }
}

/// The lines of an inventory.
pub open spec fn inventory_lines(ids: Seq<u32>, protos: Map<u32, ItemPrototype>) -> Seq<(Seq<char>, Style)>
    decreases ids.len(),
{
    if ids.len() == 0 {
        seq![]
    } else {
        inventory_lines(ids.drop_last(), protos) + seq![("- "@ + item_name(protos, ids.last()) + "\n"@, spec_plain_style())]
    }
}

/// The answer to `inventory`: empty hands, or a line per item carried.
pub open spec fn inventory_msg(p: Player, protos: Map<u32, ItemPrototype>) -> MessageView {
    if p.inventory@.len() == 0 {
        MessageView::Info(plain_msg("你两手空空。"@))
    } else {
        MessageView::Description(seq![("你身上带着："@, spec_color_bold(Color::Yellow)), ("\n"@, spec_plain_style())]
            + inventory_lines(p.inventory@, protos))
    }
}

/// What the player carries: nothing, or a line per item.
pub fn handle_inventory(player: &Player, world: &WorldState) -> (m: ServerMessage)
    ensures
        m@ == inventory_msg(*player, world.static_data.item_prototypes@),
{
    if player.inventory.len() == 0 {
        return info("你两手空空。");
    }
    let mut t = Text::new();
    t.push("你身上带着：", color_bold(Color::Yellow));
    t.push_plain("\n");
    let ghost head = t@;
    assert(head =~= seq![("你身上带着："@, spec_color_bold(Color::Yellow)), ("\n"@, spec_plain_style())]);
    let mut i: usize = 0;
    while i < player.inventory.len()
        invariant
            i <= player.inventory.len(),
            t@ == head + inventory_lines(player.inventory@.take(i as int), world.static_data.item_prototypes@),
        decreases player.inventory.len() - i,
    {
        proof {
            assert(player.inventory@.take(i + 1).drop_last() =~= player.inventory@.take(i as int));
            assert(player.inventory@.take(i + 1).last() == player.inventory@[i as int]);
        }
        let mut line = "- ".to_string();
        match world.static_data.item_prototype(player.inventory[i]) {
            Some(p) => line.append(p.name.as_str()),
            None => line.append("未知物品"),
        }
        line.append("\n");
        t.push_string(line, plain_style());
        proof {
            assert(t@ =~= head + inventory_lines(player.inventory@.take(i + 1), world.static_data.item_prototypes@));
        }
        i = i + 1;
    }
    proof { assert(player.inventory@.take(i as int) =~= player.inventory@); }
    ServerMessage::Description { payload: t }
}

/// The score screen.
pub fn handle_score(player: &Player, config: &WorldConfig) -> (m: ServerMessage)
    ensures
        m@ == MessageView::Description(score_msgs(*player)),
{
    ServerMessage::Description { payload: player.get_score_string(config) }
}

} // verus!
