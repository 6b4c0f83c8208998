//! The tests a caller makes before handing a command to the game server:
//! whether its arithmetic stays in range for the player who sends it.

use vstd::prelude::*;
use crate::quest_flow::{has_room_for, rewards_total, reward_amounts, kills_done, kill_done, lemma_rewards_total_nonneg};
use crate::world::world_player::{Player, PlayerQuestStatus, QuestStatusView, BaseStats, status_views, vitals_fit,
    kills_fit, statuses_after_kill, status_after_kill, counts_kills_of, counter_of, counts_view, kill_target,
    counter_value};
use crate::world_model::{Quest, QuestRewards, Registry};
use crate::styled::{same_text, u64_text, decimal};
use crate::combat::{CombatResultView, attack_fits, attack_outcome, attack_in_range, fits_i32, after_defense, one_and_half,
    raw_damage, quot_toward_zero, half_toward_zero, scaling_of, in_i32, scale_permille, opt_skill, heal_amount, skill_damage};
use crate::commands::battle::{heal_fits, heals, cast_target, player_stats, npc_stats, player_combat_stats,
    npc_combat_stats, i32_as_u32};
use crate::commands::interaction::{npc_target, find_npc, lemma_npc_index, talk_fits, talk_index, talk_step_here,
    talk_quest, lemma_talk_index, lemma_talk_index_at, talk_step_matches};
use crate::commands::movement::steps_fit;
use crate::commands::player::work_fits;
use crate::command::{Command, CommandView};
use crate::game::{GameState, command_fits, session_index, blow_fits};
use crate::npc::Npc;
use crate::ui::room_of;
use crate::world::world_player::{reward_fits, exp_fits};
use crate::world::world_state::WorldState;
use crate::world_model::SkillTemplate;

verus! {

/// Whether the health and qi maxima stay in `u32` at the ninth sub-level.
fn vitals_ok(stats: &BaseStats) -> (r: bool)
    ensures
        r == vitals_fit(*stats, 9),
{
    (stats.con as u64) * 10 + 270 <= u32::MAX as u64 && ((stats.con as u64) + (stats.int as u64)) * 5 <= u32::MAX as u64
}

/// Whether rewards adding up to `t` (shell, potential, experience) fit.
fn room_for(p: &Player, t: (u128, u128, u128)) -> (r: bool)
    ensures
        r == has_room_for(*p, (t.0 as int, t.1 as int, t.2 as int)),
{
    t.0 <= (u64::MAX - p.wallet.shell) as u128
        && t.1 <= (u64::MAX - p.potential) as u128
        && t.2 <= (u64::MAX - p.exp) as u128
        && vitals_ok(&p.stats)
}

/// The amounts of a quest's rewards.
fn amounts_of(r: &QuestRewards) -> (t: (u128, u128, u128))
    ensures
        (t.0 as int, t.1 as int, t.2 as int) == reward_amounts(*r),
        t.0 <= u64::MAX && t.1 <= u64::MAX && t.2 <= u64::MAX,
{
    (
        match r.shell { Some(n) => n as u128, None => 0 },
        match r.potential { Some(n) => n as u128, None => 0 },
        match r.exp { Some(n) => n as u128, None => 0 },
    )
}

/// The rewards of one more status added to a total.
proof fn lemma_total_push(sts: Seq<QuestStatusView>, st: QuestStatusView, reg: Registry<Quest>)
    ensures
        rewards_total(sts.push(st), reg) == (match reg.lookup(st.quest_id) {
            Some(q) => {
                let a = reward_amounts(q.rewards);
                (rewards_total(sts, reg).0 + a.0, rewards_total(sts, reg).1 + a.1, rewards_total(sts, reg).2 + a.2)
            },
            None => rewards_total(sts, reg),
        }),
{
    assert(sts.push(st).drop_last() =~= sts);
}

/// The rewards of all the quests in progress, added up.
fn all_rewards(sts: &Vec<PlayerQuestStatus>, reg: &Registry<Quest>) -> (t: (u128, u128, u128))
    ensures
        (t.0 as int, t.1 as int, t.2 as int) == rewards_total(status_views(sts@), *reg),
{
    let ghost sv = status_views(sts@);
    let mut t: (u128, u128, u128) = (0, 0, 0);
    let mut k: usize = 0;
    proof { assert(sv.take(0) =~= Seq::<QuestStatusView>::empty()); }
    while k < sts.len()
        invariant
            k <= sts@.len(),
            sv == status_views(sts@),
            (t.0 as int, t.1 as int, t.2 as int) == rewards_total(sv.take(k as int), *reg),
            t.0 <= k * 0xFFFF_FFFF_FFFF_FFFFu128 && t.1 <= k * 0xFFFF_FFFF_FFFF_FFFFu128 && t.2 <= k * 0xFFFF_FFFF_FFFF_FFFFu128,
        decreases sts.len() - k,
    {
        proof {
            assert(sv.take(k + 1) =~= sv.take(k as int).push(sv[k as int]));
            lemma_total_push(sv.take(k as int), sv[k as int], *reg);
            assert(sv[k as int] == sts@[k as int]@);
            assert((k + 1) * 0xFFFF_FFFF_FFFF_FFFFu128 == k * 0xFFFF_FFFF_FFFF_FFFFu128 + 0xFFFF_FFFF_FFFF_FFFFu128) by (nonlinear_arith);
            assert((k + 1) * 0xFFFF_FFFF_FFFF_FFFFu128 <= 0x1_0000_0000_0000_0000u128 * 0xFFFF_FFFF_FFFF_FFFFu128) by (nonlinear_arith)
                requires k + 1 <= 0x1_0000_0000_0000_0000u128;
        }
        match reg.get(sts[k].quest_id.as_str()) {
            Some(q) => {
                let a = amounts_of(&q.rewards);
                t = (t.0 + a.0, t.1 + a.1, t.2 + a.2);
            },
            None => {},
        }
        k = k + 1;
    }
    proof { assert(sv.take(k as int) =~= sv); }
    t
}

/// Whether the quest in progress counts kills of `monster`.
fn counts_kills(q: Option<&Quest>, monster: &str) -> (r: bool)
    ensures
        r == counts_kills_of(match q { Some(x) => Some(*x), None => None }, monster@),
{
    match q {
        Some(quest) => same_text(quest.quest_type.as_str(), "kill") && same_text(quest.target_id.as_str(), monster),
        None => false,
    }
}

/// Whether a defeat of `monster` stays in range: no kill counter it raises
/// is at its maximum, and the kill quests it completes can all be paid.
pub fn defeat_ok(p: &Player, reg: &Registry<Quest>, monster: &str) -> (r: bool)
    ensures
        r == (kills_fit(status_views(p.active_quests@), *reg, monster@)
            && has_room_for(*p, rewards_total(kills_done(statuses_after_kill(status_views(p.active_quests@), *reg, monster@), *reg), *reg))),
{
    let sts = &p.active_quests;
    let ghost sv = status_views(sts@);
    let ghost after = statuses_after_kill(sv, *reg, monster@);
    let mut fit = true;
    let mut t: (u128, u128, u128) = (0, 0, 0);
    let mut k: usize = 0;
    proof { assert(after.take(0) =~= Seq::<QuestStatusView>::empty()); }
    while k < sts.len()
        invariant
            k <= sts@.len(),
            sv == status_views(sts@),
            after == statuses_after_kill(sv, *reg, monster@),
            fit == (forall|i: int| 0 <= i < k && counts_kills_of(reg.lookup(sv[i].quest_id), monster@) ==>
                counter_of(#[trigger] sv[i].kill_counts, monster@) < u32::MAX),
            (t.0 as int, t.1 as int, t.2 as int) == rewards_total(kills_done(after.take(k as int), *reg), *reg),
            t.0 <= k * 0xFFFF_FFFF_FFFF_FFFFu128 && t.1 <= k * 0xFFFF_FFFF_FFFF_FFFFu128 && t.2 <= k * 0xFFFF_FFFF_FFFF_FFFFu128,
        decreases sts.len() - k,
    {
        let st = &sts[k];
        let q = reg.get(st.quest_id.as_str());
        let ghost qv = reg.lookup(sv[k as int].quest_id);
        proof {
            assert(sv[k as int] == st@);
            assert(match q { Some(x) => Some(*x), None => None } == qv);
        }
        let counts = counts_kills(q, monster);
        let c = counter_value(&st.kill_counts, monster);
        let ghost fit0 = fit;
        if counts && c == u32::MAX {
            fit = false;
        }
        proof {
            assert forall|i: int| 0 <= i < k + 1 && counts_kills_of(reg.lookup(sv[i].quest_id), monster@) implies
                counter_of(#[trigger] sv[i].kill_counts, monster@) < u32::MAX <== fit by {}
            if !fit {
                if fit0 {
                    assert(counts_kills_of(reg.lookup(sv[k as int].quest_id), monster@));
                    assert(counter_of(sv[k as int].kill_counts, monster@) == u32::MAX);
                }
            }
        }
        let (is_kill, target): (bool, u64) = match q {
            Some(quest) => (same_text(quest.quest_type.as_str(), "kill"),
                match quest.target_count { Some(n) => n as u64, None => 1 }),
            None => (false, 0),
        };
        let done = is_kill && (st.is_completed || (counts && (c as u64) + 1 >= target));
        proof {
            assert(after[k as int] == status_after_kill(sv[k as int], qv, monster@));
            assert(after[k as int].quest_id == sv[k as int].quest_id);
            assert(done == kill_done(after[k as int], *reg));
            let a = after.take(k as int);
            assert(after.take(k + 1) =~= a.push(after[k as int]));
            assert(after.take(k + 1).drop_last() =~= a);
            if done {
                assert(kills_done(after.take(k + 1), *reg) == kills_done(a, *reg).push(after[k as int]));
                lemma_total_push(kills_done(a, *reg), after[k as int], *reg);
            } else {
                assert(kills_done(after.take(k + 1), *reg) == kills_done(a, *reg));
            }
            assert((k + 1) * 0xFFFF_FFFF_FFFF_FFFFu128 == k * 0xFFFF_FFFF_FFFF_FFFFu128 + 0xFFFF_FFFF_FFFF_FFFFu128) by (nonlinear_arith);
            assert((k + 1) * 0xFFFF_FFFF_FFFF_FFFFu128 <= 0x1_0000_0000_0000_0000u128 * 0xFFFF_FFFF_FFFF_FFFFu128) by (nonlinear_arith)
                requires k + 1 <= 0x1_0000_0000_0000_0000u128;
        }
        if done {
            match q {
                Some(quest) => {
                    let a = amounts_of(&quest.rewards);
                    t = (t.0 + a.0, t.1 + a.1, t.2 + a.2);
                },
                None => {},
            }
        }
        k = k + 1;
    }
    proof { assert(after.take(k as int) =~= after); }
    fit && room_for(p, t)
}

/// A blow at an NPC stays in range for every roll exactly when its damage
/// does: a blow that does not kill leaves the NPC above zero health.
pub proof fn lemma_blow_fits(p: Player, n: Npc, skill: Option<SkillTemplate>)
    ensures
        blow_fits(p, n, skill) == attack_fits(player_stats(p), npc_stats(n), skill),
{
    let a = player_stats(p);
    let d = npc_stats(n);
    if attack_fits(a, d, skill) {
        assert forall|h: int, c: int| 0 <= h < 100 && 0 <= c < 100 implies match #[trigger] attack_outcome(a, d, skill, h, c) {
            CombatResultView::Hit { damage, .. } => fits_i32(n.hp - damage),
            _ => true,
        } by {
            let raw = raw_damage(a, skill);
            let half = quot_toward_zero(d.defense as int, 2);
            assert(fits_i32(raw - half));
            assert(fits_i32(one_and_half(raw) - half));
            assert(fits_i32(after_defense(raw, d.defense as int)));
            assert(fits_i32(after_defense(one_and_half(raw), d.defense as int)));
        }
    }
}

/// Whether rewards of a quest can be paid to the player.
fn reward_ok(p: &Player, r: &QuestRewards) -> (b: bool)
    ensures
        b == reward_fits(*p, *r),
{
    let shell_ok = match r.shell { Some(n) => p.wallet.shell <= u64::MAX - n, None => true };
    let potential_ok = match r.potential { Some(n) => p.potential <= u64::MAX - n, None => true };
    let exp_ok = match r.exp {
        Some(n) => p.exp <= u64::MAX - n && (p.realm_sub_level >= 9 || vitals_ok(&p.stats)),
        None => true,
    };
    shell_ok && potential_ok && exp_ok
}

/// Whether a healing skill's arithmetic stays in range for the player.
fn heal_ok(p: &Player, skill: &SkillTemplate) -> (r: bool)
    ensures
        r == heal_fits(*p, *skill),
{
    let st = player_combat_stats(p);
    let v = scaling_of(skill, st.str, st.dex, st.int);
    let d: i64 = skill.base_damage as i64 + scale_permille(v, skill.scaling_multiplier_permille) as i64;
    let missing: i64 = st.max_hp as i64 - st.hp as i64;
    proof { assert(d == skill_damage(*skill, st.str, st.dex, st.int)); }
    if !(in_i32(d) && d != i32::MIN as i64 && in_i32(missing)) {
        return false;
    }
    let h: i64 = (if d < 0 { -d } else { d }) / 2;
    let amount: i64 = if h < missing { h } else { missing };
    proof { assert(amount == heal_amount(*skill, st)); }
    let wrapped: i64 = if amount >= 0 { amount } else { amount + 0x1_0000_0000 };
    (p.hp as i64) + wrapped <= u32::MAX as i64
}

/// Whether a day's work can be paid and counted.
fn work_ok(p: &Player) -> (r: bool)
    ensures
        r == work_fits(*p),
{
    let c = counter_value(&p.quest_counts, "q102_work");
    p.wallet.shell <= u64::MAX - 20 && p.exp <= u64::MAX - 5 && p.potential <= u64::MAX - 2
        && (c as u128) + (p.active_quests.len() as u128) <= u32::MAX as u128
}

/// Whether every quest in progress can move one step on.
fn steps_ok(sts: &Vec<PlayerQuestStatus>) -> (r: bool)
    ensures
        r == steps_fit(status_views(sts@)),
{
    let ghost sv = status_views(sts@);
    let mut k: usize = 0;
    while k < sts.len()
        invariant
            k <= sts@.len(),
            sv == status_views(sts@),
            forall|j: int| 0 <= j < k ==> (#[trigger] sv[j]).current_step < u32::MAX,
        decreases sts.len() - k,
    {
        proof { assert(sv[k as int] == sts@[k as int]@); }
        if sts[k].current_step == u32::MAX {
            return false;
        }
        k = k + 1;
    }
    true
}

/// Whether talking to NPC `n` stays in range: the quest it moves on can
/// take one more step and be paid.
fn talk_ok(p: &Player, reg: &Registry<Quest>, n: &Npc) -> (r: bool)
    ensures
        r == talk_fits(*p, *reg, *n),
{
    let who = u64_text(n.prototype_id as u64);
    let ghost sv = status_views(p.active_quests@);
    let mut k: usize = 0;
    while k < p.active_quests.len() && !talk_step_matches(&p.active_quests[k], reg, who.as_str())
        invariant
            k <= p.active_quests.len(),
            sv == status_views(p.active_quests@),
            forall|j: int| 0 <= j < k ==> !talk_step_here(#[trigger] sv[j], *reg, who@),
        decreases p.active_quests.len() - k,
    {
        proof { assert(sv[k as int] == p.active_quests@[k as int]@); }
        k = k + 1;
    }
    if k == p.active_quests.len() {
        proof {
            lemma_talk_index(sv, *reg, who@);
            if talk_index(sv, *reg, who@) >= 0 {
                assert(talk_step_here(sv[talk_index(sv, *reg, who@)], *reg, who@));
            }
        }
        return true;
    }
    proof {
        assert(sv[k as int] == p.active_quests@[k as int]@);
        lemma_talk_index_at(sv, *reg, who@, k as int);
    }
    match reg.get(p.active_quests[k].quest_id.as_str()) {
        Some(q) => p.active_quests[k].current_step < u32::MAX && reward_ok(p, &q.rewards),
        None => false,
    }
}

/// The NPC that `target` names in room `room`, if any.
fn npc_at(world: &WorldState, room: &str, target: &str) -> (r: Option<Npc>)
    ensures
        r == npc_target(*world, room@, target@),
{
    let mut npcs = world.get_npcs_in_room(room);
    proof { lemma_npc_index(npcs@, target@); }
    match find_npc(&npcs, target) {
        Some(i) => Some(npcs.remove(i)),
        None => None,
    }
}

/// Whether the arithmetic of a command stays in range for the player who
/// sends it: the test a caller makes before `handle_command`.
pub fn command_in_range(state: &GameState, player_id: u64, command: &Command) -> (b: bool)
    ensures
        b == command_fits(*state, player_id, command@),
{
    let i = match state.find_session(player_id) {
        Some(i) => i,
        None => return true,
    };
    let p = &state.player_sessions[i].player;
    let w = &state.world_state;
    let reg = &w.static_data.quests;
    let room: String = match w.get_player_room_id(player_id) {
        Some(r) => r,
        None => String::new(),
    };
    proof { assert(room@ == room_of(*w, player_id)); }
    match command {
        Command::Attack { target } => match npc_at(w, room.as_str(), target.as_str()) {
            Some(n) => {
                let monster = u64_text(n.prototype_id as u64);
                defeat_ok(p, reg, monster.as_str())
            },
            None => true,
        },
        Command::Kill { target } => match npc_at(w, room.as_str(), target.as_str()) {
            Some(n) => {
                proof { lemma_blow_fits(*p, n, None); }
                attack_in_range(&player_combat_stats(p), &npc_combat_stats(&n), None)
            },
            None => true,
        },
        Command::Cast { skill, target } => match w.static_data.skills.get(skill.as_str()) {
            None => true,
            Some(sk) => {
                if p.qi < sk.cost_qi {
                    true
                } else if sk.is_magic && sk.base_damage < 0 {
                    heal_ok(p, sk)
                } else {
                    match target {
                        None => true,
                        Some(t) => match npc_at(w, room.as_str(), t.as_str()) {
                            Some(n) => {
                                proof { lemma_blow_fits(*p, n, Some(*sk)); }
                                attack_in_range(&player_combat_stats(p), &npc_combat_stats(&n), Some(sk))
                            },
                            None => true,
                        },
                    }
                }
            },
        },
        Command::Work => work_ok(p),
        Command::Go { .. } => {
            let t = all_rewards(&p.active_quests, reg);
            room_for(p, t) && steps_ok(&p.active_quests)
        },
        Command::Talk { target } => match npc_at(w, room.as_str(), target.as_str()) {
            Some(n) => talk_ok(p, reg, &n),
            None => true,
        },
        _ => true,
    }
}

} // verus!
