//! Dealing with what is in the room: `talk` to an NPC, `get` an item.

use vstd::prelude::*;
use vstd::string::*;
use crate::command::views_of;
use crate::game::{MessageView, ServerMessage, info, error, plain_msg, msg_opt};
use crate::npc::Npc;
use crate::quest_flow::{settle_quests, kept, settled_ids, add_names, kept_views, settled_view_ids, new_status, fresh_status, lemma_kept_views};
use crate::styled::{Text, Style, Color, spec_plain_style, spec_color_bold, plain_style, color_bold, same_text,
    contains_text, list_has, decimal, u64_text};
use crate::world::world_player::{Player, PlayerQuestStatus, QuestStatusView, status_views, has_active_quest,
    after_reward, reward_msgs, exp_msgs, after_money, reward_fits};
use crate::world::world_state::{WorldState, npcs_in, items_in, first_position};
use crate::world_model::{ItemPrototype, Quest, QuestRewards, Registry};

verus! {

/// Whether an NPC answers to `target`: by its name or its prototype number.
pub open spec fn npc_matches(n: Npc, target: Seq<char>) -> bool {
    n.name@ == target || decimal(n.prototype_id as nat) == target
}

/// The position of the first NPC answering to `target`, or -1.
pub open spec fn npc_index(ns: Seq<Npc>, target: Seq<char>) -> int
    decreases ns.len(),
{
    if ns.len() == 0 {
        -1
    } else if npc_matches(ns[0], target) {
        0
    } else {
        let r = npc_index(ns.drop_first(), target);
        if r < 0 { -1 } else { r + 1 }
    }
}

pub proof fn lemma_npc_index(ns: Seq<Npc>, target: Seq<char>)
    ensures
        -1 <= npc_index(ns, target) < ns.len(),
        npc_index(ns, target) >= 0 ==> npc_matches(ns[npc_index(ns, target)], target),
        npc_index(ns, target) >= 0 ==> forall|j: int| 0 <= j < npc_index(ns, target) ==> !npc_matches(#[trigger] ns[j], target),
        npc_index(ns, target) < 0 ==> forall|j: int| 0 <= j < ns.len() ==> !npc_matches(#[trigger] ns[j], target),
    decreases ns.len(),
{
    if ns.len() > 0 {
        lemma_npc_index(ns.drop_first(), target);
        if !npc_matches(ns[0], target) {
            assert forall|j: int| 1 <= j < ns.len() implies ns[j] == ns.drop_first()[j - 1] by {}
        }
    }
}

/// The first NPC answering to `target` is the one `npc_index` names.
pub proof fn lemma_npc_index_at(ns: Seq<Npc>, target: Seq<char>, i: int)
    requires
        0 <= i < ns.len(),
        npc_matches(ns[i], target),
        forall|j: int| 0 <= j < i ==> !npc_matches(#[trigger] ns[j], target),
    ensures
        npc_index(ns, target) == i,
{
    lemma_npc_index(ns, target);
    if npc_index(ns, target) < i {
        assert(npc_matches(ns[npc_index(ns, target)], target));
    }
}

/// Whether an NPC answers to `target`.
pub fn npc_answers(n: &Npc, target: &str) -> (r: bool)
    ensures
        r == npc_matches(*n, target@),
{
    same_text(n.name.as_str(), target) || same_text(u64_text(n.prototype_id as u64).as_str(), target)
}

/// The position of the first NPC answering to `target`.
pub fn find_npc(ns: &Vec<Npc>, target: &str) -> (r: Option<usize>)
    ensures
        r is None <==> npc_index(ns@, target@) < 0,
        r matches Some(i) ==> i as int == npc_index(ns@, target@),
{
    proof { lemma_npc_index(ns@, target@); }
    let mut i: usize = 0;
    while i < ns.len()
        invariant
            i <= ns.len(),
            forall|j: int| 0 <= j < i ==> !npc_matches(#[trigger] ns@[j], target@),
        decreases ns.len() - i,
    {
        if npc_answers(&ns[i], target) {
            proof { lemma_npc_index_at(ns@, target@, i as int); }
            return Some(i);
        }
        i = i + 1;
    }
    None
}

/// Whether item `id` answers to `name`: it has a prototype, and the
/// prototype's name or the number is `name`.
pub open spec fn item_matches(protos: Map<u32, ItemPrototype>, id: u32, name: Seq<char>) -> bool {
    protos.contains_key(id) && (protos[id].name@ == name || decimal(id as nat) == name)
}

/// The first item among `ids` answering to `name`.
pub open spec fn item_found(ids: Seq<u32>, protos: Map<u32, ItemPrototype>, name: Seq<char>) -> Option<u32>
    decreases ids.len(),
{
    if ids.len() == 0 {
        None
    } else if item_matches(protos, ids[0], name) {
        Some(ids[0])
    } else {
        item_found(ids.drop_first(), protos, name)
    }
}

/// Whether item `id` answers to `name`.
fn item_hits(world: &WorldState, id: u32, name: &str) -> (r: bool)
    ensures
        r == item_matches(world.static_data.item_prototypes@, id, name@),
{
    match world.static_data.item_prototype(id) {
        Some(p) => same_text(p.name.as_str(), name) || same_text(u64_text(id as u64).as_str(), name),
        None => false,
    }
}

/// What `get` of `item` in room `room` does to player `p0` and world `w0`,
/// and its answer (`None` when no such item lies there).
pub open spec fn get_done(p0: Player, w0: WorldState, p1: Player, w1: WorldState, room: Seq<char>, item: Seq<char>, m: Option<MessageView>) -> bool {
    let before = items_in(w0.dynamic_data.room_items, room);
    match item_found(before, w0.static_data.item_prototypes@, item) {
        None => p1 == p0 && w1 == w0 && m is None,
        Some(id) => {
            &&& items_in(w1.dynamic_data.room_items, room) == before.remove(first_position(before, id))
            &&& forall|k: Seq<char>| k != room ==> items_in(w1.dynamic_data.room_items, k) == items_in(w0.dynamic_data.room_items, k)
            &&& w1.dynamic_data.players == w0.dynamic_data.players
            &&& w1.dynamic_data.npcs == w0.dynamic_data.npcs
            &&& w1.static_data == w0.static_data
            &&& p1 == (Player { inventory: p1.inventory, ..p0 })
            &&& p1.inventory@ == p0.inventory@.push(id)
            &&& m == Some(MessageView::Info(plain_msg("你捡起了"@ + w0.static_data.item_prototypes@[id].name@ + "。"@)))
        },
    }
}

/// Picks up an item lying in the room, found by name or number; nothing
/// when there is none.
pub fn handle_get(player: &mut Player, item: &str, current_room_id: &str, world: &mut WorldState) -> (m: Option<ServerMessage>)
    requires
        old(world).wf(),
    ensures
        final(world).wf(),
        get_done(*old(player), *old(world), *final(player), *final(world), current_room_id@, item@, msg_opt(m)),
{
    let room_items = world.get_items_in_room(current_room_id);
    let ghost ids = room_items@;
    let mut i: usize = 0;
    proof { assert(ids.skip(0) =~= ids); }
    while i < room_items.len() && !item_hits(world, room_items[i], item)
        invariant
            i <= room_items.len(),
            ids == room_items@,
            item_found(ids, world.static_data.item_prototypes@, item@) == item_found(ids.skip(i as int), world.static_data.item_prototypes@, item@),
        decreases room_items.len() - i,
    {
        proof {
            assert(ids.skip(i as int)[0] == ids[i as int]);
            assert(ids.skip(i as int).drop_first() =~= ids.skip(i + 1));
        }
        i = i + 1;
    }
    if i == room_items.len() {
        proof { assert(ids.skip(i as int).len() == 0); }
        return None;
    }
    let item_id = room_items[i];
    proof { assert(ids.skip(i as int)[0] == ids[i as int]); }
    proof {
        assert(item_found(ids, world.static_data.item_prototypes@, item@) == Some(item_id));
        let k = i as int;
        assert(ids[k] == item_id);
        assert(ids.contains(item_id));
    }
    if world.remove_item_from_room(current_room_id, item_id) {
        player.inventory.push(item_id);
        let mut line = "你捡起了".to_string();
        match world.static_data.item_prototype(item_id) {
            Some(p) => line.append(p.name.as_str()),
            None => line.append("未知物品"),
        }
        line.append("。");
        let mut t = Text::new();
        t.push_string(line, plain_style());
        assert(t@ =~= plain_msg("你捡起了"@ + old(world).static_data.item_prototypes@[item_id].name@ + "。"@));
        Some(ServerMessage::Info { payload: t })
    } else {
        Some(error("捡起物品失败。"))
    }
}


/// Whether a status's current step is to talk to `who` (an NPC prototype number).
pub open spec fn talk_step_here(st: QuestStatusView, reg: Registry<Quest>, who: Seq<char>) -> bool {
    match reg.lookup(st.quest_id) {
        Some(q) => st.current_step < q.steps@.len()
            && q.steps@[st.current_step as int].step_type@ == "talk"@
            && q.steps@[st.current_step as int].target_id@ == who,
        None => false,
    }
}

/// The first status whose current step is to talk to `who`, or -1.
pub open spec fn talk_index(sts: Seq<QuestStatusView>, reg: Registry<Quest>, who: Seq<char>) -> int
    decreases sts.len(),
{
    if sts.len() == 0 {
        -1
    } else if talk_step_here(sts[0], reg, who) {
        0
    } else {
        let r = talk_index(sts.drop_first(), reg, who);
        if r < 0 { -1 } else { r + 1 }
    }
}

pub proof fn lemma_talk_index(sts: Seq<QuestStatusView>, reg: Registry<Quest>, who: Seq<char>)
    ensures
        -1 <= talk_index(sts, reg, who) < sts.len(),
        talk_index(sts, reg, who) >= 0 ==> talk_step_here(sts[talk_index(sts, reg, who)], reg, who),
        talk_index(sts, reg, who) >= 0 ==> forall|j: int| 0 <= j < talk_index(sts, reg, who) ==> !talk_step_here(#[trigger] sts[j], reg, who),
        talk_index(sts, reg, who) < 0 ==> forall|j: int| 0 <= j < sts.len() ==> !talk_step_here(#[trigger] sts[j], reg, who),
    decreases sts.len(),
{
    if sts.len() > 0 {
        lemma_talk_index(sts.drop_first(), reg, who);
        if !talk_step_here(sts[0], reg, who) {
            assert forall|j: int| 1 <= j < sts.len() implies sts[j] == sts.drop_first()[j - 1] by {}
        }
    }
}

pub proof fn lemma_talk_index_at(sts: Seq<QuestStatusView>, reg: Registry<Quest>, who: Seq<char>, i: int)
    requires
        0 <= i < sts.len(),
        talk_step_here(sts[i], reg, who),
        forall|j: int| 0 <= j < i ==> !talk_step_here(#[trigger] sts[j], reg, who),
    ensures
        talk_index(sts, reg, who) == i,
{
    lemma_talk_index(sts, reg, who);
    if talk_index(sts, reg, who) < i {
        assert(talk_step_here(sts[talk_index(sts, reg, who)], reg, who));
    }
}

/// The quest of the talk step found, and its index.
pub open spec fn talk_quest(p: Player, reg: Registry<Quest>, n: Npc) -> Quest {
    let sv = status_views(p.active_quests@);
    reg.lookup(sv[talk_index(sv, reg, decimal(n.prototype_id as nat))].quest_id)->0
}

/// The NPC's own line: its dialog, or `default_greet`.
pub open spec fn own_dialog(n: Npc) -> Seq<char> {
    match n.dialog_id { Some(d) => d@, None => "default_greet"@ }
}

/// The statuses after the talk step found (if any) moves on.
pub open spec fn talk_stepped(sv: Seq<QuestStatusView>, k: int) -> Seq<QuestStatusView> {
    if k < 0 { sv } else { sv.update(k, QuestStatusView { current_step: (sv[k].current_step + 1) as u32, ..sv[k] }) }
}

/// The notice of the village chief's second quest.
pub open spec fn chief_notice() -> Seq<(Seq<char>, Style)> {
    seq![("\n"@, spec_plain_style()), ("[任务接取] 老村长交给了你一个新的任务：勤能补拙。输入 'qs' 查看详情。"@, spec_color_bold(Color::Yellow))]
}

/// What a talk needs to stay in range: the step found can move on, and
/// the reward of its quest can be paid.
pub open spec fn talk_fits(p: Player, reg: Registry<Quest>, n: Npc) -> bool {
    let sv = status_views(p.active_quests@);
    let k = talk_index(sv, reg, decimal(n.prototype_id as nat));
    k >= 0 ==> sv[k].current_step < u32::MAX && reward_fits(p, talk_quest(p, reg, n).rewards)
}

/// What talking to NPC `n` does. The first quest in progress whose current
/// step is to talk to this NPC moves one step on, and the NPC speaks that
/// step's dialog (else its own). If that quest has a name: on its last step
/// it is completed (`[任务完成]`), rewarded, finished quests are settled, and
/// finishing `tutorial_1` with the chief (1002) gives quest `q102` unless it
/// is finished; otherwise it is updated (`[任务更新]`). With no such named
/// quest, the chief gives `q102` to a player who finished `tutorial_1` and
/// neither finished nor holds `q102`.
pub open spec fn talk_outcome(p0: Player, p1: Player, reg: Registry<Quest>, n: Npc, payload: Seq<(Seq<char>, Style)>, reward: Option<Seq<(Seq<char>, Style)>>) -> bool {
    let who = decimal(n.prototype_id as nat);
    let sv0 = status_views(p0.active_quests@);
    let k = talk_index(sv0, reg, who);
    let sv1 = talk_stepped(sv0, k);
    let q = talk_quest(p0, reg, n);
    let dialog = if k >= 0 {
        match q.steps@[sv0[k].current_step as int].dialog_id { Some(d) => d@, None => own_dialog(n) }
    } else {
        own_dialog(n)
    };
    let head = seq![(n.name@ + ": "@ + dialog, spec_plain_style())];
    if k >= 0 && q.name@.len() > 0 {
        if sv0[k].current_step + 1 == q.steps@.len() {
            let done0 = add_names(views_of(p0.completed_quests@), settled_view_ids(sv1, reg));
            let chain = sv0[k].quest_id == "tutorial_1"@ && n.prototype_id == 1002 && reg.has("q102"@) && !done0.contains("q102"@);
            &&& status_views(p1.active_quests@) == kept_views(sv1, reg) + (if chain { seq![new_status("q102"@)] } else { seq![] })
            &&& views_of(p1.completed_quests@) == done0
            &&& p1 == (Player { active_quests: p1.active_quests, completed_quests: p1.completed_quests, ..after_reward(p0, q.rewards) })
            &&& payload == head + seq![("\n"@, spec_plain_style()), ("[任务完成] "@ + q.name@, spec_color_bold(Color::Yellow))]
                + (if chain { chief_notice() } else { seq![] })
            &&& reward == Some(reward_msgs(q.rewards, match q.rewards.exp {
                Some(x) => exp_msgs(after_money(p0, q.rewards), x as int),
                None => seq![],
            }))
        } else {
            &&& status_views(p1.active_quests@) == sv1
            &&& p1 == (Player { active_quests: p1.active_quests, ..p0 })
            &&& payload == head + seq![("\n"@, spec_plain_style()), ("[任务更新] "@ + q.name@, spec_color_bold(Color::Green))]
            &&& reward is None
        }
    } else {
        let chain = n.prototype_id == 1002 && list_has(p0.completed_quests@, "tutorial_1"@) && !list_has(p0.completed_quests@, "q102"@)
            && !has_active_quest(p0.active_quests@, "q102"@) && reg.has("q102"@);
        &&& status_views(p1.active_quests@) == sv1 + (if chain { seq![new_status("q102"@)] } else { seq![] })
        &&& p1 == (Player { active_quests: p1.active_quests, ..p0 })
        &&& payload == head + (if chain { chief_notice() } else { seq![] })
        &&& reward is None
    }
}


/// Whether a status's current step is to talk to `who`.
pub(crate) fn talk_step_matches(st: &PlayerQuestStatus, reg: &Registry<Quest>, who: &str) -> (r: bool)
    ensures
        r == talk_step_here(st@, *reg, who@),
{
    match reg.get(st.quest_id.as_str()) {
        Some(q) => {
            if (st.current_step as usize) < q.steps.len() {
                let step = &q.steps[st.current_step as usize];
                same_text(step.step_type.as_str(), "talk") && same_text(step.target_id.as_str(), who)
            } else {
                false
            }
        },
        None => false,
    }
}

/// The chief gives quest `q102` to a player who finished `tutorial_1` and
/// neither finished nor holds `q102`, when the quest exists.
fn offer_chief_quest(player: &mut Player, npc: &Npc, reg: &Registry<Quest>, payload: &mut Text)
    ensures
        ({
            let chain = npc.prototype_id == 1002 && list_has(old(player).completed_quests@, "tutorial_1"@)
                && !list_has(old(player).completed_quests@, "q102"@) && !has_active_quest(old(player).active_quests@, "q102"@)
                && reg.has("q102"@);
            &&& status_views(final(player).active_quests@) == status_views(old(player).active_quests@) + (if chain { seq![new_status("q102"@)] } else { seq![] })
            &&& *final(player) == (Player { active_quests: final(player).active_quests, ..*old(player) })
            &&& final(payload)@ == old(payload)@ + (if chain { chief_notice() } else { seq![] })
        }),
{
    if npc.prototype_id == 1002 && contains_text(&player.completed_quests, "tutorial_1")
        && !contains_text(&player.completed_quests, "q102") && !player.has_quest("q102") && reg.contains_key("q102") {
        let ghost before = player.active_quests@;
        player.active_quests.push(fresh_status("q102"));
        payload.push_plain("\n");
        payload.push("[任务接取] 老村长交给了你一个新的任务：勤能补拙。输入 'qs' 查看详情。", color_bold(Color::Yellow));
        proof {
            assert(status_views(player.active_quests@) =~= status_views(before) + seq![new_status("q102"@)]);
            assert(payload@ =~= old(payload)@ + chief_notice());
        }
    } else {
        proof {
            assert(status_views(player.active_quests@) =~= status_views(old(player).active_quests@) + seq![]);
            assert(payload@ =~= old(payload)@ + seq![]);
        }
    }
}

/// Talks to an NPC (see `talk_outcome`): the NPC's words with any quest
/// notices, and the reward notice when a quest was completed.
pub fn talk_to(player: &mut Player, npc: &Npc, reg: &Registry<Quest>) -> (r: (Text, Option<Text>))
    requires
        talk_fits(*old(player), *reg, *npc),
    ensures
        talk_outcome(*old(player), *final(player), *reg, *npc, r.0@, match r.1 { Some(t) => Some(t@), None => None }),
{
    let who = u64_text(npc.prototype_id as u64);
    let ghost sv0 = status_views(player.active_quests@);
    let ghost p0 = *player;
    let mut k: usize = 0;
    while k < player.active_quests.len() && !talk_step_matches(&player.active_quests[k], reg, who.as_str())
        invariant
            k <= player.active_quests.len(),
            *player == p0,
            sv0 == status_views(player.active_quests@),
            forall|j: int| 0 <= j < k ==> !talk_step_here(#[trigger] sv0[j], *reg, who@),
        decreases player.active_quests.len() - k,
    {
        k = k + 1;
    }
    let mut payload = Text::new();
    let own: String = match &npc.dialog_id {
        Some(d) => d.clone(),
        None => "default_greet".to_string(),
    };
    if k == player.active_quests.len() {
        proof { lemma_talk_index(sv0, *reg, who@); if talk_index(sv0, *reg, who@) >= 0 { assert(talk_step_here(sv0[talk_index(sv0, *reg, who@)], *reg, who@)); } }
        let mut line = npc.name.clone();
        line.append(": ");
        line.append(own.as_str());
        payload.push_string(line, plain_style());
        let ghost head = payload@;
        offer_chief_quest(player, npc, reg, &mut payload);
        proof {
            assert(talk_stepped(sv0, -1) == sv0);
        }
        return (payload, None);
    }
    proof {
        assert(sv0[k as int] == player.active_quests@[k as int]@);
        lemma_talk_index_at(sv0, *reg, who@, k as int);
    }
    let quest = match reg.get(player.active_quests[k].quest_id.as_str()) {
        Some(q) => q,
        None => {
            proof { assert(false); }
            return (payload, None);
        },
    };
    let cur = player.active_quests[k].current_step;
    let dialog: String = match &quest.steps[cur as usize].dialog_id {
        Some(d) => d.clone(),
        None => own,
    };
    let named = quest.name.unicode_len() > 0;
    let finished = (cur as usize) + 1 == quest.steps.len();
    let qid = player.active_quests[k].quest_id.clone();
    let reward = if named && finished { Some(player.grant_reward(&quest.rewards)) } else { None };
    let ghost p_rewarded = *player;
    player.active_quests[k].current_step = cur + 1;
    proof {
        assert(status_views(player.active_quests@) =~= talk_stepped(sv0, k as int));
    }
    let mut line = npc.name.clone();
    line.append(": ");
    line.append(dialog.as_str());
    payload.push_string(line, plain_style());
    let ghost head = payload@;
    if named {
        if finished {
            payload.push_plain("\n");
            let mut done = "[任务完成] ".to_string();
            done.append(quest.name.as_str());
            payload.push_string(done, color_bold(Color::Yellow));
            let ghost before_settle = player.active_quests@;
            settle_quests(player, reg);
            proof { lemma_kept_views(before_settle, *reg); }
            if same_text(qid.as_str(), "tutorial_1") && npc.prototype_id == 1002 && reg.contains_key("q102")
                && !contains_text(&player.completed_quests, "q102") {
                let ghost kept0 = player.active_quests@;
                proof { crate::quest_flow::lemma_list_has_views_pub(player.completed_quests@, "q102"@); }
                player.active_quests.push(fresh_status("q102"));
                payload.push_plain("\n");
                payload.push("[任务接取] 老村长交给了你一个新的任务：勤能补拙。输入 'qs' 查看详情。", color_bold(Color::Yellow));
                proof {
                    assert(status_views(player.active_quests@) =~= status_views(kept0) + seq![new_status("q102"@)]);
                }
            } else {
                proof {
                    crate::quest_flow::lemma_list_has_views_pub(player.completed_quests@, "q102"@);
                    assert(status_views(player.active_quests@) =~= status_views(player.active_quests@) + seq![]);
                }
            }
            proof {
                let chain = sv0[k as int].quest_id == "tutorial_1"@ && npc.prototype_id == 1002 && reg.has("q102"@)
                    && !add_names(views_of(p0.completed_quests@), settled_view_ids(talk_stepped(sv0, k as int), *reg)).contains("q102"@);
                assert(payload@ =~= head + seq![("\n"@, spec_plain_style()), ("[任务完成] "@ + quest.name@, spec_color_bold(Color::Yellow))]
                    + (if chain { chief_notice() } else { seq![] }));
            }
        } else {
            payload.push_plain("\n");
            let mut upd = "[任务更新] ".to_string();
            upd.append(quest.name.as_str());
            payload.push_string(upd, color_bold(Color::Green));
            proof {
                assert(payload@ =~= head + seq![("\n"@, spec_plain_style()), ("[任务更新] "@ + quest.name@, spec_color_bold(Color::Green))]);
            }
        }
    } else {
        let ghost stepped = *player;
        proof {
            assert(has_active_quest(stepped.active_quests@, "q102"@) == has_active_quest(p0.active_quests@, "q102"@)) by {
                if has_active_quest(p0.active_quests@, "q102"@) {
                    let i = choose|i: int| 0 <= i < p0.active_quests@.len() && #[trigger] p0.active_quests@[i].quest_id@ == "q102"@;
                    assert(status_views(stepped.active_quests@)[i].quest_id == sv0[i].quest_id);
                    assert(stepped.active_quests@[i].quest_id@ == "q102"@);
                }
                if has_active_quest(stepped.active_quests@, "q102"@) {
                    let i = choose|i: int| 0 <= i < stepped.active_quests@.len() && #[trigger] stepped.active_quests@[i].quest_id@ == "q102"@;
                    assert(status_views(stepped.active_quests@)[i].quest_id == sv0[i].quest_id);
                    assert(p0.active_quests@[i].quest_id@ == "q102"@);
                }
            }
        }
        offer_chief_quest(player, npc, reg, &mut payload);
    }
    proof {
        let q = talk_quest(p0, *reg, *npc);
        assert(q == *quest);
        assert(talk_index(sv0, *reg, who@) == k);
    }
    (payload, reward)
}


/// The NPC in the room answering to `target`, if any.
pub open spec fn npc_target(world: WorldState, room: Seq<char>, target: Seq<char>) -> Option<Npc> {
    let ns = npcs_in(world.dynamic_data.npcs@, room);
    let i = npc_index(ns, target);
    if i < 0 { None } else { Some(ns[i]) }
}

/// Talks to an NPC in the room, found by name or number; nothing when there
/// is none. The answer is the reward notice when a quest was completed,
/// else the NPC's words (see `talk_outcome`).
pub fn handle_talk(player: &mut Player, target: &str, current_room_id: &str, world: &WorldState) -> (m: Option<ServerMessage>)
    requires
        npc_target(*world, current_room_id@, target@) matches Some(n) ==> talk_fits(*old(player), world.static_data.quests, n),
    ensures
        npc_target(*world, current_room_id@, target@) is None ==> m is None && *final(player) == *old(player),
        npc_target(*world, current_room_id@, target@) matches Some(n) ==> exists|payload: Seq<(Seq<char>, Style)>, reward: Option<Seq<(Seq<char>, Style)>>|
            talk_outcome(*old(player), *final(player), world.static_data.quests, n, payload, reward)
            && msg_opt(m) == Some(match reward { Some(r) => MessageView::Info(r), None => MessageView::Description(payload) }),
{
    let npcs = world.get_npcs_in_room(current_room_id);
    let idx = match find_npc(&npcs, target) {
        Some(i) => i,
        None => return None,
    };
    proof { lemma_npc_index(npcs@, target@); }
    let (payload, reward) = talk_to(player, &npcs[idx], &world.static_data.quests);
    match reward {
        Some(r) => Some(ServerMessage::Info { payload: r }),
        None => Some(ServerMessage::Description { payload }),
    }
}

} // verus!
