//! Fighting: `attack` and `kill` lock onto a monster and start a fight that
//! the combat rounds carry on; `cast` uses a skill at once.

use vstd::prelude::*;
use vstd::string::*;
use crate::combat::{CombatState, CombatStats, CombatResult, CombatResultView, resolve_attack, resolve_heal,
    attack_fits, attack_outcome, heal_amount, heal_log, skill_damage, fits_i32, u32_as_i32, u32_to_i32, opt_skill};
use crate::commands::interaction::{npc_target, npc_index, find_npc, lemma_npc_index};
use crate::game::{MessageView, ServerMessage, error_text, plain_msg, msg_opt};
use crate::npc::Npc;
use crate::styled::{Text, Style, Color, spec_plain_style, spec_color, plain_style, color, same_text, contains_text,
    list_has, decimal, u64_text, i64_text, signed_decimal};
use crate::world::world_player::Player;
use crate::world::world_state::{WorldState, npcs_in, npc_pos, lemma_npc_pos};
use crate::world_model::{MonsterTemplate, Registry, SkillTemplate};

verus! {

/// Whether an NPC of prototype `pid` can be attacked: a monster, or not
/// flagged friendly; an NPC without a prototype can.
pub open spec fn attackable(protos: Map<u32, crate::world_model::NpcPrototype>, pid: u32) -> bool {
    !protos.contains_key(pid) || protos[pid].ai@ == "monster"@ || !list_has(protos[pid].flags@, "friendly"@)
}

/// Whether NPCs of prototype `pid` can be attacked.
pub fn can_attack(world: &WorldState, pid: u32) -> (r: bool)
    ensures
        r == attackable(world.static_data.npc_prototypes@, pid),
{
    match world.static_data.npc_prototype(pid) {
        Some(p) => same_text(p.ai.as_str(), "monster") || !contains_text(&p.flags, "friendly"),
        None => true,
    }
}

/// The skill a player fights with: `sword_1` if it exists, else the first
/// skill, else `basic_attack`.
pub open spec fn default_skill(skills: Registry<SkillTemplate>) -> Seq<char> {
    if skills.has("sword_1"@) {
        skills.lookup("sword_1"@)->0.id@
    } else if skills.entries@.len() > 0 {
        skills.entries@[0].1.id@
    } else {
        "basic_attack"@
    }
}

/// The skill a player fights with.
pub fn default_skill_of(skills: &Registry<SkillTemplate>) -> (r: String)
    ensures
        r@ == default_skill(*skills),
{
    match skills.get("sword_1") {
        Some(s) => s.id.clone(),
        None => {
            if skills.entries.len() > 0 {
                skills.entries[0].1.id.clone()
            } else {
                "basic_attack".to_string()
            }
        },
    }
}

/// The skill a monster fights with: its template's (looked up by prototype
/// number), else `fallback`.
pub open spec fn monster_skill(ms: Registry<MonsterTemplate>, pid: u32, fallback: Seq<char>) -> Seq<char> {
    match ms.lookup(decimal(pid as nat)) {
        Some(m) => match m.default_skill_id { Some(s) => s@, None => fallback },
        None => fallback,
    }
}

/// Whether a combat state is the start of a fight against `target_id`.
pub open spec fn fight_started(cs: Option<CombatState>, target_id: Seq<char>, target_name: Seq<char>,
    target_is_player: bool, skill: Seq<char>, tick: u64) -> bool {
    &&& cs is Some
    &&& cs->0.target_id@ == target_id
    &&& cs->0.target_name@ == target_name
    &&& cs->0.target_is_player == target_is_player
    &&& cs->0.current_skill_id@ == skill
    &&& cs->0.combo_index == 0
    &&& cs->0.last_attack_tick == tick
    &&& cs->0.is_in_combat
}

/// The NPC instance `id` has been drawn into a fight as described, if it is there.
pub open spec fn npc_engaged(w0: WorldState, w1: WorldState, id: u64, target_id: Seq<char>, target_name: Seq<char>,
    skill: Seq<char>, tick: u64) -> bool {
    let i = npc_pos(w0.dynamic_data.npcs@, id);
    &&& w1.wf()
    &&& w1.dynamic_data.players == w0.dynamic_data.players
    &&& w1.dynamic_data.room_items == w0.dynamic_data.room_items
    &&& w1.dynamic_data.next_npc_id == w0.dynamic_data.next_npc_id
    &&& w1.static_data == w0.static_data
    &&& i < 0 ==> w1 == w0
    &&& i >= 0 ==> w1.dynamic_data.npcs@.len() == w0.dynamic_data.npcs@.len()
        && (forall|j: int| 0 <= j < w0.dynamic_data.npcs@.len() && j != i ==> w1.dynamic_data.npcs@[j] == w0.dynamic_data.npcs@[j])
        && w1.dynamic_data.npcs@[i] == (Npc { combat_state: w1.dynamic_data.npcs@[i].combat_state, ..w0.dynamic_data.npcs@[i] })
        && fight_started(w1.dynamic_data.npcs@[i].combat_state, target_id, target_name, true, skill, tick)
}

/// The announcement of a fight.
pub open spec fn fight_notice(name: Seq<char>) -> Seq<(Seq<char>, Style)> {
    seq![("你屏息凝神，锁定了"@, spec_plain_style()), (name, spec_color(Color::Yellow)), ("，战斗开始！"@, spec_plain_style())]
}

/// The refusal to attack a friendly NPC.
pub open spec fn friendly_refusal(name: Seq<char>) -> Seq<char> {
    name + " 看起来很友善，你下不了手。"@
}

/// Starts a fight between the player and NPC `npc`: the player fights
/// with `player_skill`, the NPC with `npc_skill`, from tick `tick`.
fn engage(player: &mut Player, npc: &Npc, world: &mut WorldState, player_id: u64, user_name: &str,
    player_skill: &String, npc_skill: String, tick: u64) -> (m: ServerMessage)
    requires
        old(world).wf(),
    ensures
        *final(player) == (Player { combat_state: final(player).combat_state, ..*old(player) }),
        fight_started(final(player).combat_state, decimal(npc.instance_id as nat), npc.name@, false, player_skill@, tick),
        npc_engaged(*old(world), *final(world), npc.instance_id, decimal(player_id as nat), user_name@, npc_skill@, tick),
        m@ == MessageView::Description(fight_notice(npc.name@)),
{
    player.combat_state = Some(CombatState::new(
        u64_text(npc.instance_id),
        npc.name.clone(),
        false,
        player_skill.clone(),
        tick,
    ));
    let cs = CombatState::new(u64_text(player_id), user_name.to_string(), true, npc_skill, tick);
    let ghost w0 = *world;
    world.set_npc_combat_state(npc.instance_id, Some(cs));
    proof { lemma_npc_pos(w0.dynamic_data.npcs@, npc.instance_id); }
    let mut t = Text::new();
    t.push_plain("你屏息凝神，锁定了");
    t.push(npc.name.as_str(), color(Color::Yellow));
    t.push_plain("，战斗开始！");
    assert(t@ =~= fight_notice(npc.name@));
    ServerMessage::Description { payload: t }
}

/// Attacks an NPC in the room, found by name or number: nothing when there
/// is none; a refusal for a friendly one; else a fight starts in which both
/// sides use the player's default skill.
pub fn handle_attack(player: &mut Player, target: &str, current_room_id: &str, world: &mut WorldState,
    player_id: u64, user_name: &str, tick: u64) -> (m: Option<ServerMessage>)
    requires
        old(world).wf(),
    ensures
        final(world).wf(),
        npc_target(*old(world), current_room_id@, target@) is None ==> m is None && *final(player) == *old(player) && *final(world) == *old(world),
        npc_target(*old(world), current_room_id@, target@) matches Some(n) ==> if !attackable(old(world).static_data.npc_prototypes@, n.prototype_id) {
            *final(player) == *old(player) && *final(world) == *old(world)
                && msg_opt(m) == Some(MessageView::Error(plain_msg(friendly_refusal(n.name@))))
        } else {
            let skill = default_skill(old(world).static_data.skills);
            &&& *final(player) == (Player { combat_state: final(player).combat_state, ..*old(player) })
            &&& fight_started(final(player).combat_state, decimal(n.instance_id as nat), n.name@, false, skill, tick)
            &&& npc_engaged(*old(world), *final(world), n.instance_id, decimal(player_id as nat), user_name@, skill, tick)
            &&& msg_opt(m) == Some(MessageView::Description(fight_notice(n.name@)))
        },
{
    let npcs = world.get_npcs_in_room(current_room_id);
    let idx = match find_npc(&npcs, target) {
        Some(i) => i,
        None => return None,
    };
    proof { lemma_npc_index(npcs@, target@); }
    let npc = &npcs[idx];
    if !can_attack(world, npc.prototype_id) {
        let mut line = npc.name.clone();
        line.append(" 看起来很友善，你下不了手。");
        return Some(error_text(line));
    }
    let skill = default_skill_of(&world.static_data.skills);
    let npc_skill = skill.clone();
    Some(engage(player, npc, world, player_id, user_name, &skill, npc_skill, tick))
}

/// The skill a monster fights with.
fn monster_skill_of(monsters: &Registry<MonsterTemplate>, pid: u32, fallback: &String) -> (r: String)
    ensures
        r@ == monster_skill(*monsters, pid, fallback@),
{
    match monsters.get(u64_text(pid as u64).as_str()) {
        Some(m) => match &m.default_skill_id {
            Some(s) => s.clone(),
            None => fallback.clone(),
        },
        None => fallback.clone(),
    }
}

/// Like `attack`, but the monster answers with its own default skill.
pub fn handle_kill(player: &mut Player, target: &str, current_room_id: &str, world: &mut WorldState,
    player_id: u64, user_name: &str, tick: u64) -> (m: Option<ServerMessage>)
    requires
        old(world).wf(),
    ensures
        final(world).wf(),
        npc_target(*old(world), current_room_id@, target@) is None ==> m is None && *final(player) == *old(player) && *final(world) == *old(world),
        npc_target(*old(world), current_room_id@, target@) matches Some(n) ==> if !attackable(old(world).static_data.npc_prototypes@, n.prototype_id) {
            *final(player) == *old(player) && *final(world) == *old(world)
                && msg_opt(m) == Some(MessageView::Error(plain_msg(friendly_refusal(n.name@))))
        } else {
            let skill = default_skill(old(world).static_data.skills);
            &&& *final(player) == (Player { combat_state: final(player).combat_state, ..*old(player) })
            &&& fight_started(final(player).combat_state, decimal(n.instance_id as nat), n.name@, false, skill, tick)
            &&& npc_engaged(*old(world), *final(world), n.instance_id, decimal(player_id as nat), user_name@,
                monster_skill(old(world).static_data.monsters, n.prototype_id, skill), tick)
            &&& msg_opt(m) == Some(MessageView::Description(fight_notice(n.name@)))
        },
{
    let npcs = world.get_npcs_in_room(current_room_id);
    let idx = match find_npc(&npcs, target) {
        Some(i) => i,
        None => return None,
    };
    proof { lemma_npc_index(npcs@, target@); }
    let npc = &npcs[idx];
    if !can_attack(world, npc.prototype_id) {
        let mut line = npc.name.clone();
        line.append(" 看起来很友善，你下不了手。");
        return Some(error_text(line));
    }
    let skill = default_skill_of(&world.static_data.skills);
    let npc_skill = monster_skill_of(&world.static_data.monsters, npc.prototype_id, &skill);
    Some(engage(player, npc, world, player_id, user_name, &skill, npc_skill, tick))
}


/// A player's numbers in a fight (the defense is always 5).
pub open spec fn player_stats(p: Player) -> CombatStats {
    CombatStats {
        hp: u32_as_i32(p.hp) as i32,
        max_hp: u32_as_i32(p.hp_max) as i32,
        attack: u32_as_i32(p.atk) as i32,
        defense: 5,
        level: p.realm_level as i32,
        name: p.name,
        is_player: true,
        str: u32_as_i32(p.stats.str) as i32,
        dex: u32_as_i32(p.stats.dex) as i32,
        int: u32_as_i32(p.stats.int) as i32,
    }
}

/// An NPC's numbers in a fight (10 in every attribute).
pub open spec fn npc_stats(n: Npc) -> CombatStats {
    CombatStats {
        hp: n.hp,
        max_hp: n.max_hp,
        attack: n.attack,
        defense: n.defense,
        level: n.level,
        name: n.name,
        is_player: false,
        str: 10,
        dex: 10,
        int: 10,
    }
}

/// A player's numbers in a fight.
pub fn player_combat_stats(p: &Player) -> (s: CombatStats)
    ensures
        s == player_stats(*p),
{
    CombatStats {
        hp: u32_to_i32(p.hp),
        max_hp: u32_to_i32(p.hp_max),
        attack: u32_to_i32(p.atk),
        defense: 5,
        level: p.realm_level as i32,
        name: p.name.clone(),
        is_player: true,
        str: u32_to_i32(p.stats.str),
        dex: u32_to_i32(p.stats.dex),
        int: u32_to_i32(p.stats.int),
    }
}

/// An NPC's numbers in a fight.
pub fn npc_combat_stats(n: &Npc) -> (s: CombatStats)
    ensures
        s == npc_stats(*n),
{
    CombatStats {
        hp: n.hp,
        max_hp: n.max_hp,
        attack: n.attack,
        defense: n.defense,
        level: n.level,
        name: n.name.clone(),
        is_player: false,
        str: 10,
        dex: 10,
        int: 10,
    }
}

/// What a blow does to the NPC struck: a hit lowers its health and takes it
/// out of the world at 0 or below; a killing blow takes it out; a miss
/// leaves it. `dead` says whether it was taken out.
pub open spec fn struck(w0: WorldState, w1: WorldState, id: u64, r: CombatResultView, dead: bool) -> bool {
    let i = npc_pos(w0.dynamic_data.npcs@, id);
    let ns = w0.dynamic_data.npcs@;
    &&& w1.wf()
    &&& w1.dynamic_data.players == w0.dynamic_data.players
    &&& w1.dynamic_data.room_items == w0.dynamic_data.room_items
    &&& w1.dynamic_data.next_npc_id == w0.dynamic_data.next_npc_id
    &&& w1.static_data == w0.static_data
    &&& match r {
        CombatResultView::Hit { damage, .. } => if i < 0 {
            w1 == w0 && !dead
        } else if ns[i].hp - damage <= 0 {
            dead && w1.dynamic_data.npcs@ == ns.remove(i)
        } else {
            !dead && w1.dynamic_data.npcs@ == ns.update(i, Npc { hp: (ns[i].hp - damage) as i32, ..ns[i] })
        },
        CombatResultView::TargetKilled { .. } => dead && (i < 0 ==> w1 == w0) && (i >= 0 ==> w1.dynamic_data.npcs@ == ns.remove(i)),
        _ => w1 == w0 && !dead,
    }
}

/// Applies a blow's result to the NPC struck.
pub fn strike(world: &mut WorldState, id: u64, r: &CombatResult) -> (dead: bool)
    requires
        old(world).wf(),
        match r@ {
            CombatResultView::Hit { damage, .. } => npc_pos(old(world).dynamic_data.npcs@, id) >= 0 ==> fits_i32(
                old(world).dynamic_data.npcs@[npc_pos(old(world).dynamic_data.npcs@, id)].hp - damage),
            _ => true,
        },
    ensures
        struck(*old(world), *final(world), id, r@, dead),
{
    let ghost w0 = *world;
    proof { lemma_npc_pos(w0.dynamic_data.npcs@, id); }
    match r {
        CombatResult::Hit { damage, .. } => {
            let down = world.damage_npc(id, *damage);
            if down {
                let ghost w1 = *world;
                proof { lemma_npc_pos(w1.dynamic_data.npcs@, id); }
                world.remove_npc(id);
                proof {
                    let i = npc_pos(w0.dynamic_data.npcs@, id);
                    assert(w1.dynamic_data.npcs@[i].instance_id == id);
                    assert forall|j: int| 0 <= j < i implies w1.dynamic_data.npcs@[j].instance_id != id by {
                        assert(w1.dynamic_data.npcs@[j] == w0.dynamic_data.npcs@[j]);
                    }
                    crate::world::world_state::lemma_npc_pos_at(w1.dynamic_data.npcs@, id, i);
                    assert(world.dynamic_data.npcs@ =~= w0.dynamic_data.npcs@.remove(i));
                }
            }
            down
        },
        CombatResult::TargetKilled { .. } => {
            world.remove_npc(id);
            true
        },
        _ => false,
    }
}

/// The line that reports a monster defeated.
pub open spec fn defeat_line(name: Seq<char>) -> Seq<(Seq<char>, Style)> {
    seq![("你击败了"@, spec_plain_style()), (name, spec_color(Color::Yellow)), ("！"@, spec_plain_style())]
}

/// The log of a blow's result.
pub open spec fn result_log(r: CombatResultView) -> Seq<(Seq<char>, Style)> {
    match r {
        CombatResultView::Hit { log, .. } => log,
        CombatResultView::Miss { log } => log,
        CombatResultView::TargetKilled { log, .. } => log,
        CombatResultView::InsufficientQi { log } => log,
        CombatResultView::Heal { log, .. } => log,
    }
}

/// The log of a blow's result.
pub fn log_of(r: CombatResult) -> (t: Text)
    ensures
        t@ == result_log(r@),
{
    match r {
        CombatResult::Hit { log, .. } => log,
        CombatResult::Miss { log } => log,
        CombatResult::TargetKilled { log, .. } => log,
        CombatResult::InsufficientQi { log } => log,
        CombatResult::Heal { log, .. } => log,
    }
}


/// An `i32` read as a `u32` (`as u32`): negatives wrap to large values.
pub open spec fn i32_as_u32(x: int) -> int {
    if x >= 0 { x } else { x + 0x1_0000_0000 }
}

/// Whether a skill heals its caster: a magic skill with negative base damage.
pub open spec fn heals(skill: SkillTemplate) -> bool {
    skill.is_magic && skill.base_damage < 0
}

/// The arithmetic of a heal stays in range.
pub open spec fn heal_fits(p: Player, skill: SkillTemplate) -> bool {
    let st = player_stats(p);
    &&& fits_i32(skill_damage(skill, st.str, st.dex, st.int))
    &&& skill_damage(skill, st.str, st.dex, st.int) != i32::MIN
    &&& fits_i32(st.max_hp - st.hp)
    &&& p.hp + i32_as_u32(heal_amount(skill, st)) <= u32::MAX
}

/// The arithmetic of a skill's blow at an NPC stays in range, for every roll.
pub open spec fn strike_fits(p: Player, n: Npc, skill: SkillTemplate) -> bool {
    let a = player_stats(p);
    let d = npc_stats(n);
    &&& attack_fits(a, d, Some(skill))
    &&& forall|h: int, c: int| 0 <= h < 100 && 0 <= c < 100 ==> match #[trigger] attack_outcome(a, d, Some(skill), h, c) {
        CombatResultView::Hit { damage, .. } => fits_i32(n.hp - damage),
        _ => true,
    }
}

/// The player after casting a healing skill: the qi spent, the health
/// raised by the heal up to the maximum.
pub open spec fn after_heal(p: Player, skill: SkillTemplate) -> Player {
    let healed = p.hp + i32_as_u32(heal_amount(skill, player_stats(p)));
    Player {
        qi: (p.qi - skill.cost_qi) as u32,
        hp: (if healed < p.hp_max { healed } else { p.hp_max as int }) as u32,
        ..p
    }
}

/// The message of a cast blow: its log, and the defeat when the NPC fell.
pub open spec fn cast_blow_msg(r: CombatResultView, dead: bool, name: Seq<char>) -> MessageView {
    match r {
        CombatResultView::Hit { log, .. } => MessageView::Description(if dead { log + seq![("\n"@, spec_plain_style())] + defeat_line(name) } else { log }),
        CombatResultView::TargetKilled { log, .. } => MessageView::Description(log + seq![("\n"@, spec_plain_style())] + defeat_line(name)),
        CombatResultView::Miss { log } => MessageView::Description(log),
        _ => MessageView::Error(plain_msg("技能释放失败。"@)),
    }
}

/// The refusal when the qi falls short.
pub open spec fn qi_refusal(cost: u32) -> Seq<char> {
    "你的真元不足，需要 "@ + decimal(cost as nat) + " 点真元。"@
}

/// The NPC a cast aims at, if a target is named and answers.
pub open spec fn cast_target(world: WorldState, room: Seq<char>, target: Option<Seq<char>>) -> Option<Npc> {
    match target {
        Some(t) => npc_target(world, room, t),
        None => None,
    }
}

/// The view of an optional target name.
pub open spec fn opt_str(t: Option<&str>) -> Option<Seq<char>> {
    match t { Some(x) => Some(x@), None => None }
}

/// Casts skill `skill_id`: nothing for an unknown skill; a refusal without
/// enough qi; a healing skill heals the caster; any other skill strikes the
/// named NPC in the room (nothing when there is none) for some pair of
/// rolls, spending the qi.
pub fn handle_cast(player: &mut Player, skill_id: &str, target_name: Option<&str>, current_room_id: &str,
    world: &mut WorldState) -> (m: Option<ServerMessage>)
    requires
        old(world).wf(),
        old(world).static_data.skills.lookup(skill_id@) matches Some(sk) ==> (
            old(player).qi >= sk.cost_qi ==> if heals(sk) {
                heal_fits(*old(player), sk)
            } else {
                cast_target(*old(world), current_room_id@, opt_str(target_name)) matches Some(n) ==> strike_fits(*old(player), n, sk)
            }),
    ensures
        final(world).wf(),
        old(world).static_data.skills.lookup(skill_id@) is None ==> m is None && *final(player) == *old(player) && *final(world) == *old(world),
        old(world).static_data.skills.lookup(skill_id@) matches Some(sk) ==> if old(player).qi < sk.cost_qi {
            m is Some && msg_opt(m) == Some(MessageView::Error(plain_msg(qi_refusal(sk.cost_qi))))
                && *final(player) == *old(player) && *final(world) == *old(world)
        } else if heals(sk) {
            &&& *final(player) == after_heal(*old(player), sk)
            &&& *final(world) == *old(world)
            &&& msg_opt(m) == Some(MessageView::Description(heal_log(old(player).name@, sk.name@, heal_amount(sk, player_stats(*old(player))))))
        } else {
            match cast_target(*old(world), current_room_id@, opt_str(target_name)) {
                None => m is None && *final(player) == *old(player) && *final(world) == *old(world),
                Some(n) => {
                    &&& *final(player) == (Player { qi: (old(player).qi - sk.cost_qi) as u32, ..*old(player) })
                    &&& exists|h: int, c: int, dead: bool| 0 <= h < 100 && 0 <= c < 100
                        && #[trigger] struck(*old(world), *final(world), n.instance_id, attack_outcome(player_stats(*old(player)), npc_stats(n), Some(sk), h, c), dead)
                        && msg_opt(m) == Some(cast_blow_msg(attack_outcome(player_stats(*old(player)), npc_stats(n), Some(sk), h, c), dead, n.name@))
                },
            }
        },
{
    let skill = match world.static_data.skills.get(skill_id) {
        Some(s) => s,
        None => return None,
    };
    if player.qi < skill.cost_qi {
        let mut line = "你的真元不足，需要 ".to_string();
        line.append(u64_text(skill.cost_qi as u64).as_str());
        line.append(" 点真元。");
        return Some(error_text(line));
    }
    let attacker = player_combat_stats(player);
    if skill.is_magic && skill.base_damage < 0 {
        let result = resolve_heal(skill, &attacker);
        match result {
            CombatResult::Heal { amount, log } => {
                player.qi = player.qi - skill.cost_qi;
                let gain: u32 = if amount >= 0 { amount as u32 } else { (amount as i64 + 4294967296) as u32 };
                let healed = player.hp + gain;
                player.hp = if healed < player.hp_max { healed } else { player.hp_max };
                return Some(ServerMessage::Description { payload: log });
            },
            _ => {
                proof { assert(false); }
                return None;
            },
        }
    }
    let t = match target_name {
        Some(t) => t,
        None => return None,
    };
    let npcs = world.get_npcs_in_room(current_room_id);
    let idx = match find_npc(&npcs, t) {
        Some(i) => i,
        None => return None,
    };
    proof { lemma_npc_index(npcs@, t@); }
    let npc = &npcs[idx];
    let defender = npc_combat_stats(npc);
    let result = resolve_attack(&attacker, &defender, Some(skill));
    player.qi = player.qi - skill.cost_qi;
    let ghost rv = result@;
    let ghost hc = choose|h: int, c: int| 0 <= h < 100 && 0 <= c < 100
        && result@ == attack_outcome(attacker, defender, opt_skill(Some(skill)), h, c);
    proof {
        crate::world::world_state::lemma_seen_npc_pos(*world, current_room_id@, idx as int);
        assert(npcs@[idx as int] == *npc);
        let hh = hc.0;
        let cc = hc.1;
        assert(match #[trigger] attack_outcome(player_stats(*old(player)), npc_stats(*npc), Some(*skill), hh, cc) {
            CombatResultView::Hit { damage, .. } => fits_i32(npc.hp - damage),
            _ => true,
        });
    }
    let dead = strike(world, npc.instance_id, &result);
    let kill = match &result {
        CombatResult::Hit { .. } => dead,
        CombatResult::TargetKilled { .. } => true,
        _ => false,
    };
    let failed = match &result {
        CombatResult::Hit { .. } => false,
        CombatResult::TargetKilled { .. } => false,
        CombatResult::Miss { .. } => false,
        _ => true,
    };
    if failed {
        return Some(crate::game::error("技能释放失败。"));
    }
    let mut log = log_of(result);
    let ghost log0 = log@;
    if kill {
        log.push_plain("\n");
        log.push_plain("你击败了");
        log.push(npc.name.as_str(), color(Color::Yellow));
        log.push_plain("！");
    }
    proof {
        let n = npcs@[idx as int];
        assert(cast_target(*old(world), current_room_id@, opt_str(target_name)) == Some(n));
        let ro = attack_outcome(player_stats(*old(player)), npc_stats(n), Some(*skill), hc.0, hc.1);
        assert(ro == rv);
        assert(log0 == result_log(rv));
        if kill {
            assert(log@ =~= log0 + seq![("\n"@, spec_plain_style())] + defeat_line(n.name@));
        }
        assert(MessageView::Description(log@) == cast_blow_msg(ro, dead, n.name@));
        assert(struck(*old(world), *world, n.instance_id, ro, dead));
    }
    Some(ServerMessage::Description { payload: log })
}

} // verus!
