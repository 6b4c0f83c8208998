//! How quests close: finished quests leave the list of quests in progress
//! for the list of finished ones, and rewards are paid out.

use vstd::prelude::*;
use vstd::string::*;
use crate::command::views_of;
use crate::styled::{same_text, list_has, insert_text};
use crate::world::world_player::{Player, PlayerQuestStatus, QuestStatusView, after_reward, after_money, after_exp,
    reward_fits, exp_fits, vitals_fit, leveled, lemma_leveled_bounds, status_views};
use crate::world_model::{Quest, QuestRewards, Registry};

verus! {

/// The shells, potential and experience of a reward (0 for what it lacks).
pub open spec fn reward_amounts(r: QuestRewards) -> (int, int, int) {
    (
        match r.shell { Some(n) => n as int, None => 0 },
        match r.potential { Some(n) => n as int, None => 0 },
        match r.exp { Some(n) => n as int, None => 0 },
    )
}

/// The rewards of the quests of the given statuses, added up.
pub open spec fn rewards_total(sts: Seq<QuestStatusView>, reg: Registry<Quest>) -> (int, int, int)
    decreases sts.len(),
{
    if sts.len() == 0 {
        (0, 0, 0)
    } else {
        let prev = rewards_total(sts.drop_last(), reg);
        match reg.lookup(sts.last().quest_id) {
            Some(q) => {
                let a = reward_amounts(q.rewards);
                (prev.0 + a.0, prev.1 + a.1, prev.2 + a.2)
            },
            None => prev,
        }
    }
}

/// Whether amounts `t` can still be paid to the player without overflow.
pub open spec fn has_room_for(p: Player, t: (int, int, int)) -> bool {
    &&& p.wallet.shell + t.0 <= u64::MAX
    &&& p.potential + t.1 <= u64::MAX
    &&& p.exp + t.2 <= u64::MAX
    &&& vitals_fit(p.stats, 9)
}

pub proof fn lemma_rewards_total_nonneg(sts: Seq<QuestStatusView>, reg: Registry<Quest>)
    ensures
        rewards_total(sts, reg).0 >= 0,
        rewards_total(sts, reg).1 >= 0,
        rewards_total(sts, reg).2 >= 0,
    decreases sts.len(),
{
    if sts.len() > 0 {
        lemma_rewards_total_nonneg(sts.drop_last(), reg);
    }
}

/// A reward adds its shells and potential, adds at most its experience
/// (breakthroughs spend some), and leaves the attributes alone.
pub proof fn lemma_after_reward(p: Player, r: QuestRewards)
    ensures
        after_reward(p, r).wallet.shell == p.wallet.shell + reward_amounts(r).0 || reward_amounts(r).0 + p.wallet.shell > u64::MAX,
        after_reward(p, r).potential == p.potential + reward_amounts(r).1 || reward_amounts(r).1 + p.potential > u64::MAX,
        has_room_for(p, reward_amounts(r)) ==> after_reward(p, r).exp <= p.exp + reward_amounts(r).2,
        after_reward(p, r).stats == p.stats,
        after_reward(p, r).active_quests == p.active_quests,
        after_reward(p, r).completed_quests == p.completed_quests,
        after_reward(p, r).wallet.crystal == p.wallet.crystal,
{
    let m = after_money(p, r);
    match r.exp {
        Some(n) => {
            lemma_leveled_bounds(m.realm_sub_level as int, m.exp + n);
        },
        None => {},
    }
}

/// Whether a status leaves the list when quests are settled: a kill quest
/// once completed, any other quest once past its last step.
pub open spec fn settles(st: QuestStatusView, reg: Registry<Quest>) -> bool {
    match reg.lookup(st.quest_id) {
        Some(q) => if q.quest_type@ == "kill"@ { st.is_completed } else { st.current_step >= q.steps@.len() },
        None => false,
    }
}

/// The statuses that stay.
pub open spec fn kept(sts: Seq<PlayerQuestStatus>, reg: Registry<Quest>) -> Seq<PlayerQuestStatus>
    decreases sts.len(),
{
    if sts.len() == 0 {
        seq![]
    } else {
        let prev = kept(sts.drop_last(), reg);
        if settles(sts.last()@, reg) { prev } else { prev.push(sts.last()) }
    }
}

/// A list of names with each new name added once, in order.
pub open spec fn add_names(names: Seq<Seq<char>>, ids: Seq<Seq<char>>) -> Seq<Seq<char>>
    decreases ids.len(),
{
    if ids.len() == 0 {
        names
    } else {
        let prev = add_names(names, ids.drop_last());
        if prev.contains(ids.last()) { prev } else { prev.push(ids.last()) }
    }
}

/// The ids of the statuses that leave.
pub open spec fn settled_ids(sts: Seq<PlayerQuestStatus>, reg: Registry<Quest>) -> Seq<Seq<char>>
    decreases sts.len(),
{
    if sts.len() == 0 {
        seq![]
    } else {
        let prev = settled_ids(sts.drop_last(), reg);
        if settles(sts.last()@, reg) { prev.push(sts.last().quest_id@) } else { prev }
    }
}

proof fn lemma_list_has_views(v: Seq<String>, k: Seq<char>)
    ensures
        list_has(v, k) <==> views_of(v).contains(k),
{
    if list_has(v, k) {
        let i = choose|i: int| 0 <= i < v.len() && #[trigger] v[i]@ == k;
        assert(views_of(v)[i] == k);
    }
    if views_of(v).contains(k) {
        let i = choose|i: int| 0 <= i < views_of(v).len() && views_of(v)[i] == k;
        assert(v[i]@ == k);
    }
}

/// Whether a status leaves the list when quests are settled.
fn settles_now(st: &PlayerQuestStatus, reg: &Registry<Quest>) -> (r: bool)
    ensures
        r == settles(st@, *reg),
{
    match reg.get(st.quest_id.as_str()) {
        Some(q) => if same_text(q.quest_type.as_str(), "kill") { st.is_completed } else { (st.current_step as usize) >= q.steps.len() },
        None => false,
    }
}

/// Moves the finished quests from the list in progress to the finished
/// list (each id once there); the rest keep their order.
pub fn settle_quests(player: &mut Player, reg: &Registry<Quest>)
    ensures
        final(player).active_quests@ == kept(old(player).active_quests@, *reg),
        views_of(final(player).completed_quests@) == add_names(views_of(old(player).completed_quests@), settled_ids(old(player).active_quests@, *reg)),
        *final(player) == (Player { active_quests: final(player).active_quests, completed_quests: final(player).completed_quests, ..*old(player) }),
{
    let ghost sts = old(player).active_quests@;
    let mut src: Vec<PlayerQuestStatus> = Vec::new();
    std::mem::swap(&mut src, &mut player.active_quests);
    let mut keep: Vec<PlayerQuestStatus> = Vec::new();
    let ghost c0 = views_of(player.completed_quests@);
    let mut k: usize = 0;
    let total = src.len();
    while src.len() > 0
        invariant
            k + src@.len() == total,
            total == sts.len(),
            src@ == sts.skip(k as int),
            keep@ == kept(sts.take(k as int), *reg),
            views_of(player.completed_quests@) == add_names(c0, settled_ids(sts.take(k as int), *reg)),
            *player == (Player { active_quests: player.active_quests, completed_quests: player.completed_quests, ..*old(player) }),
            player.active_quests@.len() == 0,
        decreases src.len(),
    {
        let st = src.remove(0);
        proof {
            assert(sts.take(k + 1).drop_last() =~= sts.take(k as int));
            assert(sts.skip(k as int)[0] == st);
            assert(sts.take(k + 1).last() == st);
            assert(src@ =~= sts.skip(k + 1));
        }
        if settles_now(&st, reg) {
            let ghost before = player.completed_quests@;
            proof { lemma_list_has_views(before, st.quest_id@); }
            insert_text(&mut player.completed_quests, st.quest_id.clone());
            proof {
                let ids0 = settled_ids(sts.take(k as int), *reg);
                assert(settled_ids(sts.take(k + 1), *reg) == ids0.push(st.quest_id@));
                assert(ids0.push(st.quest_id@).drop_last() =~= ids0);
                if !list_has(before, st.quest_id@) {
                    assert(views_of(player.completed_quests@) =~= views_of(before).push(st.quest_id@));
                }
            }
        } else {
            keep.push(st);
        }
        k = k + 1;
    }
    proof { assert(sts.take(k as int) =~= sts); }
    player.active_quests = keep;
}


/// The statuses that stay, by their views.
pub open spec fn kept_views(sts: Seq<QuestStatusView>, reg: Registry<Quest>) -> Seq<QuestStatusView>
    decreases sts.len(),
{
    if sts.len() == 0 {
        seq![]
    } else {
        let prev = kept_views(sts.drop_last(), reg);
        if settles(sts.last(), reg) { prev } else { prev.push(sts.last()) }
    }
}

/// The ids of the statuses that leave, by their views.
pub open spec fn settled_view_ids(sts: Seq<QuestStatusView>, reg: Registry<Quest>) -> Seq<Seq<char>>
    decreases sts.len(),
{
    if sts.len() == 0 {
        seq![]
    } else {
        let prev = settled_view_ids(sts.drop_last(), reg);
        if settles(sts.last(), reg) { prev.push(sts.last().quest_id) } else { prev }
    }
}

pub proof fn lemma_kept_views(sts: Seq<PlayerQuestStatus>, reg: Registry<Quest>)
    ensures
        status_views(kept(sts, reg)) == kept_views(status_views(sts), reg),
        settled_ids(sts, reg) == settled_view_ids(status_views(sts), reg),
    decreases sts.len(),
{
    if sts.len() > 0 {
        lemma_kept_views(sts.drop_last(), reg);
        assert(status_views(sts).drop_last() =~= status_views(sts.drop_last()));
        assert(status_views(kept(sts.drop_last(), reg).push(sts.last())) =~= status_views(kept(sts.drop_last(), reg)).push(sts.last()@));
    } else {
        assert(status_views(kept(sts, reg)) =~= seq![]);
    }
}

/// The status a newly given quest starts with.
pub open spec fn new_status(id: Seq<char>) -> QuestStatusView {
    QuestStatusView { quest_id: id, current_step: 0, is_completed: false, kill_counts: seq![] }
}

/// A fresh status of quest `id`.
pub fn fresh_status(id: &str) -> (st: PlayerQuestStatus)
    ensures
        st@ == new_status(id@),
{
    let st = PlayerQuestStatus { quest_id: id.to_string(), current_step: 0, is_completed: false, kill_counts: Vec::new() };
    assert(st@.kill_counts =~= seq![]);
    st
}


/// A list of strings holds a text exactly when their views do.
pub proof fn lemma_list_has_views_pub(v: Seq<String>, k: Seq<char>)
    ensures
        list_has(v, k) <==> views_of(v).contains(k),
{
    lemma_list_has_views(v, k);
}


/// The rewards of a prefix of the statuses add up to no more than those of all.
pub proof fn lemma_rewards_total_prefix(sts: Seq<QuestStatusView>, reg: Registry<Quest>, i: int)
    requires
        0 <= i <= sts.len(),
    ensures
        rewards_total(sts.take(i), reg).0 <= rewards_total(sts, reg).0,
        rewards_total(sts.take(i), reg).1 <= rewards_total(sts, reg).1,
        rewards_total(sts.take(i), reg).2 <= rewards_total(sts, reg).2,
    decreases sts.len(),
{
    if i < sts.len() {
        lemma_rewards_total_prefix(sts.drop_last(), reg, i);
        assert(sts.drop_last().take(i) =~= sts.take(i));
    } else {
        assert(sts.take(i) =~= sts);
    }
}


/// Whether a status is a completed kill quest.
pub open spec fn kill_done(st: QuestStatusView, reg: Registry<Quest>) -> bool {
    st.is_completed && (reg.lookup(st.quest_id) matches Some(q) && q.quest_type@ == "kill"@)
}

/// The completed kill quests among the statuses, in order.
pub open spec fn kills_done(sts: Seq<QuestStatusView>, reg: Registry<Quest>) -> Seq<QuestStatusView>
    decreases sts.len(),
{
    if sts.len() == 0 {
        seq![]
    } else {
        let prev = kills_done(sts.drop_last(), reg);
        if kill_done(sts.last(), reg) { prev.push(sts.last()) } else { prev }
    }
}

/// The rewards of a selection of the statuses add up to no more than those of all.
pub proof fn lemma_kills_done_total(sts: Seq<QuestStatusView>, reg: Registry<Quest>)
    ensures
        rewards_total(kills_done(sts, reg), reg).0 <= rewards_total(sts, reg).0,
        rewards_total(kills_done(sts, reg), reg).1 <= rewards_total(sts, reg).1,
        rewards_total(kills_done(sts, reg), reg).2 <= rewards_total(sts, reg).2,
    decreases sts.len(),
{
    if sts.len() > 0 {
        lemma_kills_done_total(sts.drop_last(), reg);
        let prev = kills_done(sts.drop_last(), reg);
        if kill_done(sts.last(), reg) {
            assert(prev.push(sts.last()).drop_last() =~= prev);
        } else {
            match reg.lookup(sts.last().quest_id) {
                Some(q) => {
                    assert(reward_amounts(q.rewards).0 >= 0 && reward_amounts(q.rewards).1 >= 0 && reward_amounts(q.rewards).2 >= 0);
                },
                None => {},
            }
        }
    }
}


/// Every selected status is a completed kill quest.
pub proof fn lemma_kills_done_all(sts: Seq<QuestStatusView>, reg: Registry<Quest>)
    ensures
        forall|j: int| 0 <= j < kills_done(sts, reg).len() ==> #[trigger] kill_done(kills_done(sts, reg)[j], reg),
    decreases sts.len(),
{
    if sts.len() > 0 {
        lemma_kills_done_all(sts.drop_last(), reg);
        let prev = kills_done(sts.drop_last(), reg);
        assert forall|j: int| 0 <= j < kills_done(sts, reg).len() implies #[trigger] kill_done(kills_done(sts, reg)[j], reg) by {
            if j < prev.len() {
                assert(kills_done(sts, reg)[j] == prev[j]);
            }
        }
    }
}

/// What experience announces depends only on the realm, the sub-level and
/// the experience.
pub proof fn lemma_exp_msgs_frame(p: Player, q: Player, n: int)
    requires
        p.realm_level == q.realm_level,
        p.realm_sub_level == q.realm_sub_level,
        p.exp == q.exp,
    ensures
        crate::world::world_player::exp_msgs(p, n) == crate::world::world_player::exp_msgs(q, n),
{
}

} // verus!
