//! The combat round of the game loop: every logged-in player and every NPC
//! in a fight strikes its target once, and the players hear of it.
//!
//! All fighters are taken as they stand at the start of the round: the hit
//! points a blow leaves are counted from the target's hit points then, so
//! of several blows on one player the last one decides its hit points. A
//! blow that would kill is reported by the attack as a kill, which the
//! round does not act on; hit points of NPCs are not changed here.

use vstd::prelude::*;
use crate::chance::roll_in;
use crate::combat::{attack_in_range, CombatResult, CombatResultView, CombatStats, attack_fits, attack_outcome, opt_skill, quot_toward_zero,
    resolve_attack_with_rolls, saturate_i32, u32_as_i32, u32_to_i32};
use crate::game::{GameState, MessageView, PlayerSession, ServerMessage, lemma_session_index, session_index};
use crate::lifecycle::addressed;
use crate::npc::Npc;
use crate::styled::{Color, Style, Text, color, i64_text, plain_style, signed_decimal, spec_color, spec_plain_style};
use crate::world::world_loader::{parse_u64, parsed_u64};
use crate::world::world_player::Player;
use crate::world_model::{Registry, SkillTemplate};

verus! {

/// The defense every player fights with.
pub const PLAYER_DEFENSE: i32 = 5;

/// The strength, dexterity and intelligence every fighter of the round has.
pub const ROUND_ATTRIBUTE: i32 = 10;

/// A fighter of the round: who it is, its numbers, and whom it strikes
/// with which skill.
pub struct CombatEntity {
    pub id: u64,
    pub is_player: bool,
    pub hp: i32,
    pub max_hp: i32,
    pub atk: i32,
    pub defense: i32,
    pub level: i32,
    pub name: String,
    pub target_id: String,
    pub target_is_player: bool,
    pub skill_id: String,
    pub combo_index: usize,
}

/// The fighter a session puts in the round: a logged-in player in a fight.
pub open spec fn player_entity(s: PlayerSession) -> Option<CombatEntity> {
    match s.player.combat_state {
        Some(cs) => if s.user_id is Some {
            Some(CombatEntity {
                id: s.player.id,
                is_player: true,
                hp: u32_as_i32(s.player.hp) as i32,
                max_hp: u32_as_i32(s.player.hp_max) as i32,
                atk: u32_as_i32(s.player.atk) as i32,
                defense: PLAYER_DEFENSE,
                level: s.player.realm_level as i32,
                name: s.player.name,
                target_id: cs.target_id,
                target_is_player: cs.target_is_player,
                skill_id: cs.current_skill_id,
                combo_index: cs.combo_index,
            })
        } else {
            None
        },
        None => None,
    }
}

/// The fighter an NPC puts in the round: one in a fight.
pub open spec fn npc_entity(n: Npc) -> Option<CombatEntity> {
    match n.combat_state {
        Some(cs) => Some(CombatEntity {
            id: n.instance_id,
            is_player: false,
            hp: n.hp,
            max_hp: n.max_hp,
            atk: n.attack,
            defense: n.defense,
            level: n.level,
            name: n.name,
            target_id: cs.target_id,
            target_is_player: cs.target_is_player,
            skill_id: cs.current_skill_id,
            combo_index: cs.combo_index,
        }),
        None => None,
    }
}

/// The fighters of the sessions, in session order.
pub open spec fn player_entities(ss: Seq<PlayerSession>) -> Seq<CombatEntity>
    decreases ss.len(),
{
    if ss.len() == 0 {
        Seq::empty()
    } else {
        let rest = player_entities(ss.drop_last());
        match player_entity(ss.last()) {
            Some(e) => rest.push(e),
            None => rest,
        }
    }
}

/// The fighters among the NPCs, in world order.
pub open spec fn npc_entities(ns: Seq<Npc>) -> Seq<CombatEntity>
    decreases ns.len(),
{
    if ns.len() == 0 {
        Seq::empty()
    } else {
        let rest = npc_entities(ns.drop_last());
        match npc_entity(ns.last()) {
            Some(e) => rest.push(e),
            None => rest,
        }
    }
}

/// All fighters of the round: the players, then the NPCs.
pub open spec fn tick_entities(st: GameState) -> Seq<CombatEntity> {
    player_entities(st.player_sessions@) + npc_entities(st.world_state.dynamic_data.npcs@)
}

/// The id a fighter aims at: its target's id read as a number, 0 when it is
/// not one.
pub open spec fn target_key(e: CombatEntity) -> u64 {
    match parsed_u64(e.target_id@) {
        Some(v) => v,
        None => 0,
    }
}

/// The position of the first fighter that is a player or not as asked and
/// has id `id`, or -1.
pub open spec fn first_fighter(ents: Seq<CombatEntity>, player: bool, id: u64) -> int
    decreases ents.len(),
{
    if ents.len() == 0 {
        -1
    } else if ents[0].is_player == player && ents[0].id == id {
        0
    } else {
        let r = first_fighter(ents.drop_first(), player, id);
        if r < 0 { -1 } else { r + 1 }
    }
}

/// The numbers of a fighter as an attack reads them.
pub open spec fn stats_of(e: CombatEntity) -> CombatStats {
    CombatStats {
        hp: e.hp,
        max_hp: e.max_hp,
        attack: e.atk,
        defense: e.defense,
        level: e.level,
        name: e.name,
        is_player: e.is_player,
        str: ROUND_ATTRIBUTE,
        dex: ROUND_ATTRIBUTE,
        int: ROUND_ATTRIBUTE,
    }
}

/// Whether every fighter's attack on every other stays within `i32`.
pub open spec fn round_fits(ents: Seq<CombatEntity>, skills: Registry<SkillTemplate>) -> bool {
    forall|i: int, j: int| 0 <= i < ents.len() && 0 <= j < ents.len()
        ==> #[trigger] attack_fits(stats_of(ents[i]), stats_of(ents[j]), skills.lookup(#[trigger] ents[i].skill_id@))
}

/// `hp` of `max` in percent, cut toward zero, read as the float division
/// does (an infinite ratio for a positive `hp` of 0, none for 0 of 0).
pub open spec fn hp_percent(hp: int, max: int) -> int {
    if max == 0 {
        if hp > 0 { i32::MAX as int } else if hp < 0 { i32::MIN as int } else { 0 }
    } else {
        saturate_i32(quot_toward_zero(100 * hp, max))
    }
}

/// How a fighter with `percent` of its hit points looks.
pub open spec fn health_words(percent: int) -> Seq<char> {
    if percent > 80 {
        "真元充沛，毫发无损"@
    } else if percent > 50 {
        "气息微乱，护体灵光闪烁"@
    } else if percent > 20 {
        "发丝凌乱，嘴角溢出一丝鲜血"@
    } else {
        "摇摇欲坠，犹如风中残烛"@
    }
}

/// The line of a landed blow: `你对<other>` when `own` is set, else
/// `<other>对你`, then the skill and the damage.
pub open spec fn blow_line(own: bool, other: Seq<char>, skill: Seq<char>, damage: int) -> Seq<char> {
    (if own { "你对"@ + other } else { other + "对你"@ }) + "使出"@ + skill + ",\n造成了"@ + signed_decimal(damage) + "点伤害。\n"@
}

/// A landed blow's message: its line and, in yellow, how the target looks.
pub open spec fn blow_message(own: bool, other: Seq<char>, skill: Seq<char>, damage: int, health: Seq<char>) -> Seq<(Seq<char>, Style)> {
    seq![(blow_line(own, other, skill, damage), spec_plain_style()), (health, spec_color(Color::Yellow))]
}

/// What one blow of the round changes and says.
pub struct TickUpdate {
    pub attacker_id: u64,
    pub attacker_is_player: bool,
    pub defender_id: u64,
    pub defender_is_player: bool,
    pub new_hp: i32,
    pub to_attacker: Text,
    pub to_defender: Text,
    pub is_dead: bool,
}

/// A blow of the round with its messages seen as styled text.
pub struct TickUpdateView {
    pub attacker_id: u64,
    pub attacker_is_player: bool,
    pub defender_id: u64,
    pub defender_is_player: bool,
    pub new_hp: i32,
    pub to_attacker: Seq<(Seq<char>, Style)>,
    pub to_defender: Seq<(Seq<char>, Style)>,
    pub is_dead: bool,
}

impl View for TickUpdate {
    type V = TickUpdateView;

    open spec fn view(&self) -> TickUpdateView {
        TickUpdateView {
            attacker_id: self.attacker_id,
            attacker_is_player: self.attacker_is_player,
            defender_id: self.defender_id,
            defender_is_player: self.defender_is_player,
            new_hp: self.new_hp,
            to_attacker: self.to_attacker@,
            to_defender: self.to_defender@,
            is_dead: self.is_dead,
        }
    }
}

/// The blow of fighter `k` with the rolls `roll`: none when its target is
/// not in the round, or when the attack is neither a hit nor a miss.
pub open spec fn entity_update(ents: Seq<CombatEntity>, k: int, skills: Registry<SkillTemplate>, roll: (i32, i32)) -> Option<TickUpdateView> {
    let e = ents[k];
    let ti = first_fighter(ents, e.target_is_player, target_key(e));
    if ti < 0 {
        None
    } else {
        let t = ents[ti];
        let sk = skills.lookup(e.skill_id@);
        let skill_name = match sk { Some(s) => s.name@, None => e.skill_id@ };
        match attack_outcome(stats_of(e), stats_of(t), sk, roll.0 as int, roll.1 as int) {
            CombatResultView::Hit { damage, .. } => {
                let new_hp = if t.hp - damage < 0 { 0 } else { t.hp - damage };
                let health = health_words(hp_percent(new_hp, t.max_hp as int));
                Some(TickUpdateView {
                    attacker_id: e.id,
                    attacker_is_player: e.is_player,
                    defender_id: t.id,
                    defender_is_player: t.is_player,
                    new_hp: new_hp as i32,
                    to_attacker: blow_message(e.is_player, if e.is_player { t.name@ } else { e.name@ }, skill_name, damage as int, health),
                    to_defender: blow_message(t.is_player, e.name@, skill_name, damage as int, health),
                    is_dead: new_hp <= 0,
                })
            },
            CombatResultView::Miss { .. } => Some(TickUpdateView {
                attacker_id: e.id,
                attacker_is_player: e.is_player,
                defender_id: t.id,
                defender_is_player: t.is_player,
                new_hp: t.hp,
                to_attacker: seq![(if e.is_player { "你对"@ + t.name@ + "的攻击落空了！"@ } else { e.name@ + "对我的攻击落空了！"@ }, spec_plain_style())],
                to_defender: seq![(if t.is_player { "你对"@ + e.name@ + "的攻击落空了！"@ } else { e.name@ + "的攻击落空了！"@ }, spec_plain_style())],
                is_dead: false,
            }),
            _ => None,
        }
    }
}

/// The blows of the first `n` fighters, in order.
pub open spec fn tick_updates(ents: Seq<CombatEntity>, skills: Registry<SkillTemplate>, rolls: Seq<(i32, i32)>, n: int) -> Seq<TickUpdateView>
    decreases n,
{
    if n <= 0 {
        Seq::empty()
    } else {
        let rest = tick_updates(ents, skills, rolls, n - 1);
        match entity_update(ents, n - 1, skills, rolls[n - 1]) {
            Some(u) => rest.push(u),
            None => rest,
        }
    }
}

/// The sessions after a blow: a player struck is left with the blow's hit points.
pub open spec fn apply_update(ss: Seq<PlayerSession>, u: TickUpdateView) -> Seq<PlayerSession> {
    let i = session_index(ss, u.defender_id);
    if u.defender_is_player && i >= 0 {
        ss.update(i, PlayerSession { player: Player { hp: u.new_hp as u32, ..ss[i].player }, ..ss[i] })
    } else {
        ss
    }
}

/// The sessions after the blows, in order.
pub open spec fn apply_updates(ss: Seq<PlayerSession>, ups: Seq<TickUpdateView>) -> Seq<PlayerSession>
    decreases ups.len(),
{
    if ups.len() == 0 {
        ss
    } else {
        apply_update(apply_updates(ss, ups.drop_last()), ups.last())
    }
}

/// The messages of a blow: to its attacker and to its defender, each when a
/// player with a session.
pub open spec fn update_messages(ss: Seq<PlayerSession>, u: TickUpdateView) -> Seq<(u64, MessageView)> {
    (if u.attacker_is_player && session_index(ss, u.attacker_id) >= 0 {
        seq![(u.attacker_id, MessageView::Description(u.to_attacker))]
    } else {
        Seq::empty()
    }) + (if u.defender_is_player && session_index(ss, u.defender_id) >= 0 {
        seq![(u.defender_id, MessageView::Description(u.to_defender))]
    } else {
        Seq::empty()
    })
}

/// The messages of the blows, in order.
pub open spec fn round_messages(ss: Seq<PlayerSession>, ups: Seq<TickUpdateView>) -> Seq<(u64, MessageView)>
    decreases ups.len(),
{
    if ups.len() == 0 {
        Seq::empty()
    } else {
        round_messages(ss, ups.drop_last()) + update_messages(ss, ups.last())
    }
}

/// The fighter a session puts in the round.
fn player_entity_of(s: &PlayerSession) -> (r: Option<CombatEntity>)
    ensures
        r == player_entity(*s),
{
    match &s.player.combat_state {
        Some(cs) => {
            if s.user_id.is_some() {
                Some(CombatEntity {
                    id: s.player.id,
                    is_player: true,
                    hp: u32_to_i32(s.player.hp),
                    max_hp: u32_to_i32(s.player.hp_max),
                    atk: u32_to_i32(s.player.atk),
                    defense: PLAYER_DEFENSE,
                    level: s.player.realm_level as i32,
                    name: s.player.name.clone(),
                    target_id: cs.target_id.clone(),
                    target_is_player: cs.target_is_player,
                    skill_id: cs.current_skill_id.clone(),
                    combo_index: cs.combo_index,
                })
            } else {
                None
            }
        },
        None => None,
    }
}

/// The fighter an NPC puts in the round.
fn npc_entity_of(n: &Npc) -> (r: Option<CombatEntity>)
    ensures
        r == npc_entity(*n),
{
    match &n.combat_state {
        Some(cs) => Some(CombatEntity {
            id: n.instance_id,
            is_player: false,
            hp: n.hp,
            max_hp: n.max_hp,
            atk: n.attack,
            defense: n.defense,
            level: n.level,
            name: n.name.clone(),
            target_id: cs.target_id.clone(),
            target_is_player: cs.target_is_player,
            skill_id: cs.current_skill_id.clone(),
            combo_index: cs.combo_index,
        }),
        None => None,
    }
}

/// The fighters of the round: logged-in players in a fight, then NPCs in one.
pub fn combat_entities(state: &GameState) -> (v: Vec<CombatEntity>)
    ensures
        v@ == tick_entities(*state),
{
    let ss = &state.player_sessions;
    let ns = &state.world_state.dynamic_data.npcs;
    let mut v: Vec<CombatEntity> = Vec::new();
    let mut i: usize = 0;
    proof { assert(ss@.take(0) =~= Seq::<PlayerSession>::empty()); }
    while i < ss.len()
        invariant
            i <= ss.len(),
            ss@ == state.player_sessions@,
            v@ == player_entities(ss@.take(i as int)),
        decreases ss.len() - i,
    {
        proof { assert(ss@.take(i + 1).drop_last() =~= ss@.take(i as int)); }
        match player_entity_of(&ss[i]) {
            Some(e) => v.push(e),
            None => {},
        }
        i = i + 1;
    }
    proof { assert(ss@.take(i as int) =~= ss@); }
    let ghost pv = v@;
    let mut j: usize = 0;
    proof {
        assert(ns@.take(0) =~= Seq::<Npc>::empty());
        assert(v@ =~= pv + npc_entities(ns@.take(0)));
    }
    while j < ns.len()
        invariant
            j <= ns.len(),
            ns@ == state.world_state.dynamic_data.npcs@,
            v@ == pv + npc_entities(ns@.take(j as int)),
        decreases ns.len() - j,
    {
        proof { assert(ns@.take(j + 1).drop_last() =~= ns@.take(j as int)); }
        match npc_entity_of(&ns[j]) {
            Some(e) => {
                v.push(e);
                proof { assert(v@ =~= pv + npc_entities(ns@.take(j + 1))); }
            },
            None => {},
        }
        j = j + 1;
    }
    proof { assert(ns@.take(j as int) =~= ns@); }
    v
}

/// `first_fighter` finds the first fighter that matches.
pub proof fn lemma_first_fighter(ents: Seq<CombatEntity>, player: bool, id: u64)
    ensures
        -1 <= first_fighter(ents, player, id) < ents.len(),
        first_fighter(ents, player, id) >= 0 ==> ents[first_fighter(ents, player, id)].is_player == player
            && ents[first_fighter(ents, player, id)].id == id,
        first_fighter(ents, player, id) >= 0 ==> forall|j: int| 0 <= j < first_fighter(ents, player, id)
            ==> !(ents[j].is_player == player && ents[j].id == id),
        first_fighter(ents, player, id) < 0 ==> forall|j: int| 0 <= j < ents.len()
            ==> !(ents[j].is_player == player && ents[j].id == id),
    decreases ents.len(),
{
    if ents.len() > 0 {
        lemma_first_fighter(ents.drop_first(), player, id);
        if !(ents[0].is_player == player && ents[0].id == id) {
            assert forall|j: int| 1 <= j < ents.len() implies ents[j] == ents.drop_first()[j - 1] by {}
        }
    }
}

/// The position of the first fighter that is a player or not as asked and
/// has id `id`.
fn find_fighter(ents: &Vec<CombatEntity>, player: bool, id: u64) -> (r: Option<usize>)
    ensures
        r is None <==> first_fighter(ents@, player, id) < 0,
        r matches Some(k) ==> k as int == first_fighter(ents@, player, id),
{
    proof { lemma_first_fighter(ents@, player, id); }
    let mut k: usize = 0;
    while k < ents.len()
        invariant
            k <= ents.len(),
            forall|j: int| 0 <= j < k ==> !(ents@[j].is_player == player && ents@[j].id == id),
        decreases ents.len() - k,
    {
        if ents[k].is_player == player && ents[k].id == id {
            proof {
                lemma_first_fighter(ents@, player, id);
                let f = first_fighter(ents@, player, id);
                if f < 0 {
                    assert(!(ents@[k as int].is_player == player && ents@[k as int].id == id));
                } else if f < k {
                    assert(ents@[f].is_player == player && ents@[f].id == id);
                } else if f > k {
                    assert(!(ents@[k as int].is_player == player && ents@[k as int].id == id));
                }
            }
            return Some(k);
        }
        k = k + 1;
    }
    None
}

/// `hp` of `max` in percent, as the round reads it.
fn percent_of(hp: i32, max: i32) -> (r: i64)
    requires
        hp >= 0,
    ensures
        r == hp_percent(hp as int, max as int),
{
    if max == 0 {
        if hp > 0 { i32::MAX as i64 } else { 0 }
    } else {
        let a: i64 = 100 * hp as i64;
        let q: i64 = if max > 0 { a / (max as i64) } else { -(a / (-(max as i64))) };
        proof {
            if max < 0 {
                assert(quot_toward_zero(a as int, max as int) == -(a as int / (-(max as int)))) by (nonlinear_arith)
                    requires a >= 0, max < 0;
            }
        }
        if q > i32::MAX as i64 { i32::MAX as i64 } else if q < i32::MIN as i64 { i32::MIN as i64 } else { q }
    }
}

/// How a fighter with `percent` of its hit points looks.
fn health_words_of(percent: i64) -> (r: &'static str)
    ensures
        r@ == health_words(percent as int),
{
    if percent > 80 {
        "真元充沛，毫发无损"
    } else if percent > 50 {
        "气息微乱，护体灵光闪烁"
    } else if percent > 20 {
        "发丝凌乱，嘴角溢出一丝鲜血"
    } else {
        "摇摇欲坠，犹如风中残烛"
    }
}

/// A landed blow's message.
fn blow_message_of(own: bool, other: &str, skill: &str, damage: i32, health: &str) -> (t: Text)
    ensures
        t@ == blow_message(own, other@, skill@, damage as int, health@),
{
    let mut line = String::new();
    if own {
        line.append("你对");
        line.append(other);
    } else {
        line.append(other);
        line.append("对你");
    }
    line.append("使出");
    line.append(skill);
    line.append(",\n造成了");
    line.append(i64_text(damage as i64).as_str());
    line.append("点伤害。\n");
    let mut t = Text::new();
    t.push_string(line, plain_style());
    t.push(health, color(Color::Yellow));
    assert(t@ =~= blow_message(own, other@, skill@, damage as int, health@));
    t
}

/// A text of one plain span.
fn plain_text(s: String) -> (t: Text)
    ensures
        t@ == seq![(s@, spec_plain_style())],
{
    let mut t = Text::new();
    t.push_string(s, plain_style());
    assert(t@ =~= seq![(s@, spec_plain_style())]);
    t
}

/// The blow of fighter `k` with the rolls `roll`.
fn entity_update_of(ents: &Vec<CombatEntity>, k: usize, skills: &Registry<SkillTemplate>, roll: (i32, i32)) -> (r: Option<TickUpdate>)
    requires
        k < ents@.len(),
        round_fits(ents@, *skills),
    ensures
        match r {
            Some(u) => entity_update(ents@, k as int, *skills, roll) == Some(u@),
            None => entity_update(ents@, k as int, *skills, roll) is None,
        },
{
    let e = &ents[k];
    let target_key_now: u64 = match parse_u64(e.target_id.as_str()) {
        Some(v) => v,
        None => 0,
    };
    let ti = match find_fighter(ents, e.target_is_player, target_key_now) {
        Some(t) => t,
        None => return None,
    };
    proof { lemma_first_fighter(ents@, e.target_is_player, target_key_now); }
    let t = &ents[ti];
    let attacker = CombatStats {
        hp: e.hp, max_hp: e.max_hp, attack: e.atk, defense: e.defense, level: e.level,
        name: e.name.clone(), is_player: e.is_player, str: ROUND_ATTRIBUTE, dex: ROUND_ATTRIBUTE, int: ROUND_ATTRIBUTE,
    };
    let defender = CombatStats {
        hp: t.hp, max_hp: t.max_hp, attack: t.atk, defense: t.defense, level: t.level,
        name: t.name.clone(), is_player: t.is_player, str: ROUND_ATTRIBUTE, dex: ROUND_ATTRIBUTE, int: ROUND_ATTRIBUTE,
    };
    let skill = skills.get(e.skill_id.as_str());
    proof {
        assert(attacker == stats_of(ents@[k as int]));
        assert(defender == stats_of(ents@[ti as int]));
        assert(opt_skill(skill) == skills.lookup(e.skill_id@));
        assert(attack_fits(stats_of(ents@[k as int]), stats_of(ents@[ti as int]), skills.lookup(ents@[k as int].skill_id@)));
    }
    let skill_name: &str = match skill {
        Some(sk) => sk.name.as_str(),
        None => e.skill_id.as_str(),
    };
    let result = resolve_attack_with_rolls(&attacker, &defender, skill, roll.0, roll.1);
    match result {
        CombatResult::Hit { damage, .. } => {
            let left: i64 = t.hp as i64 - damage as i64;
            let new_hp: i32 = if left < 0 { 0 } else { left as i32 };
            let health = health_words_of(percent_of(new_hp, t.max_hp));
            let other: &str = if e.is_player { t.name.as_str() } else { e.name.as_str() };
            let to_attacker = blow_message_of(e.is_player, other, skill_name, damage, health);
            let to_defender = blow_message_of(t.is_player, e.name.as_str(), skill_name, damage, health);
            Some(TickUpdate {
                attacker_id: e.id,
                attacker_is_player: e.is_player,
                defender_id: t.id,
                defender_is_player: t.is_player,
                new_hp,
                to_attacker,
                to_defender,
                is_dead: new_hp <= 0,
            })
        },
        CombatResult::Miss { .. } => {
            let mut a = String::new();
            if e.is_player {
                a.append("你对");
                a.append(t.name.as_str());
                a.append("的攻击落空了！");
            } else {
                a.append(e.name.as_str());
                a.append("对我的攻击落空了！");
            }
            let mut d = String::new();
            if t.is_player {
                d.append("你对");
                d.append(e.name.as_str());
                d.append("的攻击落空了！");
            } else {
                d.append(e.name.as_str());
                d.append("的攻击落空了！");
            }
            Some(TickUpdate {
                attacker_id: e.id,
                attacker_is_player: e.is_player,
                defender_id: t.id,
                defender_is_player: t.is_player,
                new_hp: t.hp,
                to_attacker: plain_text(a),
                to_defender: plain_text(d),
                is_dead: false,
            })
        },
        _ => None,
    }
}

/// The blows of the round, fighter by fighter, with the rolls of each.
pub fn combat_updates(ents: &Vec<CombatEntity>, skills: &Registry<SkillTemplate>, rolls: &Vec<(i32, i32)>) -> (ups: Vec<TickUpdate>)
    requires
        rolls@.len() == ents@.len(),
        round_fits(ents@, *skills),
    ensures
        ups@.map_values(|u: TickUpdate| u@) == tick_updates(ents@, *skills, rolls@, ents@.len() as int),
{
    let mut ups: Vec<TickUpdate> = Vec::new();
    let mut k: usize = 0;
    proof { assert(ups@.map_values(|u: TickUpdate| u@) =~= tick_updates(ents@, *skills, rolls@, 0)); }
    while k < ents.len()
        invariant
            k <= ents.len(),
            rolls@.len() == ents@.len(),
            round_fits(ents@, *skills),
            ups@.map_values(|u: TickUpdate| u@) == tick_updates(ents@, *skills, rolls@, k as int),
        decreases ents.len() - k,
    {
        match entity_update_of(ents, k, skills, rolls[k]) {
            Some(u) => {
                let ghost before = ups@.map_values(|x: TickUpdate| x@);
                let ghost uv = u@;
                ups.push(u);
                proof { assert(ups@.map_values(|x: TickUpdate| x@) =~= before.push(uv)); }
            },
            None => {},
        }
        k = k + 1;
    }
    ups
}

/// Sessions with the same player ids, position by position, find players
/// at the same positions.
pub proof fn lemma_session_index_same_ids(a: Seq<PlayerSession>, b: Seq<PlayerSession>, pid: u64)
    requires
        a.len() == b.len(),
        forall|j: int| 0 <= j < a.len() ==> #[trigger] a[j].player.id == b[j].player.id,
    ensures
        session_index(a, pid) == session_index(b, pid),
    decreases a.len(),
{
    if a.len() > 0 {
        assert forall|j: int| 0 <= j < a.drop_first().len() implies #[trigger] a.drop_first()[j].player.id == b.drop_first()[j].player.id by {
            assert(a.drop_first()[j] == a[j + 1]);
            assert(b.drop_first()[j] == b[j + 1]);
        }
        lemma_session_index_same_ids(a.drop_first(), b.drop_first(), pid);
    }
}

/// Blows change no player's id.
pub proof fn lemma_apply_updates_ids(ss: Seq<PlayerSession>, ups: Seq<TickUpdateView>)
    ensures
        apply_updates(ss, ups).len() == ss.len(),
        forall|j: int| 0 <= j < ss.len() ==> #[trigger] apply_updates(ss, ups)[j].player.id == ss[j].player.id,
    decreases ups.len(),
{
    if ups.len() > 0 {
        lemma_apply_updates_ids(ss, ups.drop_last());
        let prev = apply_updates(ss, ups.drop_last());
        let u = ups.last();
        lemma_session_index(prev, u.defender_id);
        assert(apply_updates(ss, ups) == apply_update(prev, u));
        assert forall|j: int| 0 <= j < ss.len() implies #[trigger] apply_updates(ss, ups)[j].player.id == ss[j].player.id by {
            assert(apply_update(prev, u)[j].player.id == prev[j].player.id);
        }
    }
}

/// Carries out the blows of the round: each player struck is left with the
/// blow's hit points, and the players on either side of a blow hear of it.
pub fn apply_tick_updates(state: &mut GameState, ups: Vec<TickUpdate>) -> (out: Vec<(u64, ServerMessage)>)
    requires
        old(state).wf(),
    ensures
        final(state).wf(),
        final(state).world_state == old(state).world_state,
        final(state).player_sessions@ == apply_updates(old(state).player_sessions@, ups@.map_values(|u: TickUpdate| u@)),
        addressed(out@) == round_messages(old(state).player_sessions@, ups@.map_values(|u: TickUpdate| u@)),
{
    let ghost ss = state.player_sessions@;
    let ghost all = ups@.map_values(|u: TickUpdate| u@);
    let mut out: Vec<(u64, ServerMessage)> = Vec::new();
    let mut rest = ups;
    let ghost mut done: int = 0;
    proof {
        assert(all.take(0) =~= Seq::<TickUpdateView>::empty());
        assert(addressed(out@) =~= round_messages(ss, all.take(0)));
        assert(rest@.map_values(|u: TickUpdate| u@) =~= all.skip(0));
    }
    while rest.len() > 0
        invariant
            0 <= done <= all.len(),
            rest@.map_values(|u: TickUpdate| u@) == all.skip(done),
            state.world_state == old(state).world_state,
            state.player_sessions@ == apply_updates(ss, all.take(done)),
            addressed(out@) == round_messages(ss, all.take(done)),
            forall|a: int, b: int| 0 <= a < b < ss.len() ==> ss[a].player.id != ss[b].player.id,
        decreases rest.len(),
    {
        let ghost r0 = rest@;
        proof {
            assert(r0.map_values(|x: TickUpdate| x@).len() == all.skip(done).len());
            assert(r0.map_values(|x: TickUpdate| x@)[0] == all.skip(done)[0]);
        }
        let u = rest.remove(0);
        let ghost uv = u@;
        proof {
            assert(u == r0[0]);
            assert(rest@ =~= r0.skip(1));
        }
        let ghost cur = state.player_sessions@;
        let ghost o0 = addressed(out@);
        proof {
            assert(uv == all[done]);
            lemma_apply_updates_ids(ss, all.take(done));
            lemma_session_index_same_ids(cur, ss, u.attacker_id);
            lemma_session_index_same_ids(cur, ss, u.defender_id);
            lemma_session_index(cur, u.defender_id);
        }
        if u.attacker_is_player && state.find_session(u.attacker_id).is_some() {
            out.push((u.attacker_id, ServerMessage::Description { payload: u.to_attacker }));
        }
        let ghost o1 = addressed(out@);
        if u.defender_is_player {
            match state.find_session(u.defender_id) {
                Some(i) => {
                    let mut sess = state.player_sessions.remove(i);
                    sess.player.hp = u.new_hp as u32;
                    state.player_sessions.insert(i, sess);
                    proof {
                        assert(state.player_sessions@ =~= apply_update(cur, uv));
                    }
                    out.push((u.defender_id, ServerMessage::Description { payload: u.to_defender }));
                },
                None => {},
            }
        }
        proof {
            let t = all.take(done + 1);
            assert(all.take(done + 1).drop_last() =~= all.take(done));
            assert(t.last() == uv);
            assert(state.player_sessions@ == apply_update(cur, uv));
            assert(addressed(out@) =~= o0 + update_messages(ss, uv));
            assert(rest@.map_values(|x: TickUpdate| x@) =~= r0.map_values(|x: TickUpdate| x@).skip(1));
            assert(all.skip(done).skip(1) =~= all.skip(done + 1));
            done = done + 1;
            assert(rest@.map_values(|x: TickUpdate| x@) =~= all.skip(done));
        }
    }
    proof {
        assert(all.take(done) =~= all);
        lemma_apply_updates_ids(ss, all);
        let s1 = state.player_sessions@;
        assert forall|a: int, b: int| 0 <= a < b < s1.len() implies s1[a].player.id != s1[b].player.id by {
            assert(s1[a].player.id == ss[a].player.id);
            assert(s1[b].player.id == ss[b].player.id);
        }
    }
    out
}

/// The combat round with the rolls of each fighter given: the fighters as
/// they stand, their blows, and what the blows change and say.
pub fn process_combat_ticks_with(state: &mut GameState, rolls: &Vec<(i32, i32)>) -> (out: Vec<(u64, ServerMessage)>)
    requires
        old(state).wf(),
        rolls@.len() == tick_entities(*old(state)).len(),
        round_fits(tick_entities(*old(state)), old(state).world_state.static_data.skills),
    ensures
        final(state).wf(),
        final(state).world_state == old(state).world_state,
        ({
            let ups = tick_updates(tick_entities(*old(state)), old(state).world_state.static_data.skills, rolls@,
                tick_entities(*old(state)).len() as int);
            &&& final(state).player_sessions@ == apply_updates(old(state).player_sessions@, ups)
            &&& addressed(out@) == round_messages(old(state).player_sessions@, ups)
        }),
{
    let ents = combat_entities(state);
    let ups = combat_updates(&ents, &state.world_state.static_data.skills, rolls);
    apply_tick_updates(state, ups)
}

/// Rolls of the round, each in `0..100`.
pub open spec fn percent_rolls(rolls: Seq<(i32, i32)>) -> bool {
    forall|k: int| 0 <= k < rolls.len() ==> 0 <= (#[trigger] rolls[k]).0 < 100 && 0 <= rolls[k].1 < 100
}

/// Whether every fighter's attack on every other stays within `i32`: the
/// test a caller makes before `process_combat_ticks`.
pub fn round_in_range(state: &GameState) -> (r: bool)
    requires
        state.wf(),
    ensures
        r == round_fits(tick_entities(*state), state.world_state.static_data.skills),
{
    let ents = combat_entities(state);
    let skills = &state.world_state.static_data.skills;
    let n = ents.len();
    let mut i: usize = 0;
    while i < n
        invariant
            i <= n,
            n == ents@.len(),
            ents@ == tick_entities(*state),
            *skills == state.world_state.static_data.skills,
            forall|a: int, b: int| 0 <= a < i && 0 <= b < n
                ==> #[trigger] attack_fits(stats_of(ents@[a]), stats_of(ents@[b]), skills.lookup(#[trigger] ents@[a].skill_id@)),
        decreases n - i,
    {
        let e = &ents[i];
        let attacker = CombatStats {
            hp: e.hp, max_hp: e.max_hp, attack: e.atk, defense: e.defense, level: e.level,
            name: e.name.clone(), is_player: e.is_player, str: ROUND_ATTRIBUTE, dex: ROUND_ATTRIBUTE, int: ROUND_ATTRIBUTE,
        };
        let skill = skills.get(e.skill_id.as_str());
        proof {
            assert(attacker == stats_of(ents@[i as int]));
            assert(opt_skill(skill) == skills.lookup(e.skill_id@));
        }
        let mut j: usize = 0;
        while j < n
            invariant
                i < n,
                j <= n,
                n == ents@.len(),
                ents@ == tick_entities(*state),
                *skills == state.world_state.static_data.skills,
                attacker == stats_of(ents@[i as int]),
                opt_skill(skill) == skills.lookup(ents@[i as int].skill_id@),
                forall|b: int| 0 <= b < j
                    ==> #[trigger] attack_fits(stats_of(ents@[i as int]), stats_of(ents@[b]), skills.lookup(ents@[i as int].skill_id@)),
            decreases n - j,
        {
            let t = &ents[j];
            let defender = CombatStats {
                hp: t.hp, max_hp: t.max_hp, attack: t.atk, defense: t.defense, level: t.level,
                name: t.name.clone(), is_player: t.is_player, str: ROUND_ATTRIBUTE, dex: ROUND_ATTRIBUTE, int: ROUND_ATTRIBUTE,
            };
            proof { assert(defender == stats_of(ents@[j as int])); }
            if !attack_in_range(&attacker, &defender, skill) {
                proof {
                    assert(!attack_fits(stats_of(ents@[i as int]), stats_of(ents@[j as int]), skills.lookup(ents@[i as int].skill_id@)));
                }
                return false;
            }
            j = j + 1;
        }
        i = i + 1;
    }
    true
}

/// The combat round: each fighter rolls to hit and for a critical blow.
pub fn process_combat_ticks(state: &mut GameState) -> (out: Vec<(u64, ServerMessage)>)
    requires
        old(state).wf(),
        round_fits(tick_entities(*old(state)), old(state).world_state.static_data.skills),
    ensures
        final(state).wf(),
        final(state).world_state == old(state).world_state,
        exists|rolls: Seq<(i32, i32)>| {
            &&& rolls.len() == tick_entities(*old(state)).len()
            &&& percent_rolls(rolls)
            &&& #[trigger] round_result(*old(state), rolls, final(state).player_sessions@, addressed(out@))
        },
{
    let n = combat_entities(state).len();
    let mut rolls: Vec<(i32, i32)> = Vec::new();
    while rolls.len() < n
        invariant
            rolls@.len() <= n,
            percent_rolls(rolls@),
        decreases n - rolls@.len(),
    {
        let h = roll_in(0, 99) as i32;
        let c = roll_in(0, 99) as i32;
        rolls.push((h, c));
    }
    let ghost st0 = *state;
    let out = process_combat_ticks_with(state, &rolls);
    proof {
        assert(round_result(st0, rolls@, state.player_sessions@, addressed(out@)));
    }
    out
}

/// The sessions and messages after a round with the given rolls.
pub open spec fn round_result(st: GameState, rolls: Seq<(i32, i32)>, sessions: Seq<PlayerSession>, messages: Seq<(u64, MessageView)>) -> bool {
    let ups = tick_updates(tick_entities(st), st.world_state.static_data.skills, rolls, tick_entities(st).len() as int);
    &&& sessions == apply_updates(st.player_sessions@, ups)
    &&& messages == round_messages(st.player_sessions@, ups)
}

/// What the loop does at a tick: the heartbeat every tenth tick, and the
/// combat round every `combat_tick_ms / 1000` ticks (every tick when that is 0).
pub fn tick_actions(tick: u64, combat_tick_ms: u64) -> (r: (bool, bool))
    ensures
        r.0 == (tick % 10 == 0),
        r.1 == (tick % (if combat_tick_ms / 1000 == 0 { 1 } else { combat_tick_ms / 1000 }) == 0),
{
    let interval = combat_tick_ms / 1000;
    let every = if interval == 0 { 1 } else { interval };
    (tick % 10 == 0, tick % every == 0)
}

} // verus!
