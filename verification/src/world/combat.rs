//! The martial combat engine: one attacker strikes one defender with an
//! action of a skill, rolls to hit against the defender's dodge and deals
//! damage drawn around the attacker's strength plus the action's damage.
//!
//! The ratios 1.2 and 1.1 of the hit check and 0.8 and 1.2 of the damage
//! range are taken as exact fractions.

use vstd::prelude::*;
use crate::chance::{choose_from, roll_in};
use crate::styled::u64_text;
use crate::world::world_player::{counter_index, counter_of, counts_view, lemma_counter_index};
use crate::world::world_skill::{Action, Skill};
use crate::world::world_text::{render_names, rendered};
use crate::styled::same_text;

verus! {

/// The skill a fighter attacks with when none is trained.
pub const DEFAULT_ATTACK_SKILL: &'static str = "unarmed";

/// The skill a fighter dodges with.
pub const DEFAULT_DODGE_SKILL: &'static str = "dodge";

/// The rounds an attacker must wait after an attack.
pub const ATTACK_COOLDOWN: u32 = 3;

/// A fighter as the engine reads one: its name, the rounds it must still
/// wait, its skill levels by name, strength, dexterity and qi (its life).
pub struct Fighter {
    pub name: String,
    pub busy: u32,
    pub skills: Vec<(String, u32)>,
    pub strength: u32,
    pub dexterity: u32,
    pub qi: u32,
}

/// The main combat engine for the MUD.
pub struct CombatEngine;

/// The outcome of a combat round.
pub struct CombatLog {
    pub messages: Vec<String>,
}

/// The level of skill `name` among `skills`, or `default` when untrained.
pub open spec fn skill_level(skills: Seq<(String, u32)>, name: Seq<char>, default: int) -> int {
    if counter_index(counts_view(skills), name) >= 0 {
        counter_of(counts_view(skills), name)
    } else {
        default
    }
}

/// Qi after a blow of `damage` (never below 0).
pub open spec fn after_blow(qi: u32, damage: int) -> u32 {
    if qi > damage { (qi - damage) as u32 } else { 0 }
}

/// Whether the attack lands: attack power `skill * 1.2 + strength * 2 + ra`
/// above dodge power `dodge * 1.1 + dexterity * 2 + rd`.
pub open spec fn lands(attack_skill: int, strength: int, ra: int, dodge_skill: int, dexterity: int, rd: int) -> bool {
    12 * attack_skill + 20 * strength + 10 * ra > 11 * dodge_skill + 20 * dexterity + 10 * rd
}

/// Whether the attacker's strike lands on the defender with the two rolls.
pub open spec fn strike_lands(attacker: Fighter, defender: Fighter, ra: int, rd: int) -> bool {
    lands(
        skill_level(attacker.skills@, DEFAULT_ATTACK_SKILL@, 1),
        attacker.strength as int,
        ra,
        skill_level(defender.skills@, DEFAULT_DODGE_SKILL@, 1),
        defender.dexterity as int,
        rd,
    )
}

/// The lowest damage of a blow of base `b`: four fifths of it.
pub open spec fn damage_low(b: int) -> int {
    b * 4 / 5
}

/// The highest damage of a blow of base `b`: six fifths of it, at most `u32::MAX`.
pub open spec fn damage_high(b: int) -> int {
    if b * 6 / 5 > u32::MAX { u32::MAX as int } else { b * 6 / 5 }
}

/// `x`, raised to 1 when below.
pub open spec fn at_least_one(x: int) -> int {
    if x < 1 { 1 } else { x }
}

/// Whether `action` is one of the skill's actions open at `level`.
pub open spec fn open_action(skill: Skill, level: int, action: Action) -> bool {
    exists|i: int| 0 <= i < skill.actions@.len() && skill.actions@[i].lvl <= level && skill.actions@[i] == action
}

/// The messages of a round in which the attacker, not busy, struck with
/// `action`; `hit` tells whether it landed and `damage` what it dealt.
pub open spec fn struck_messages(attacker: Seq<char>, defender: Seq<char>, defender_qi: u32, action: Action, hit: bool, damage: int) -> Seq<Seq<char>> {
    if hit {
        let line = rendered(action.description@, attacker, defender, "胸口"@, "拳头"@) + ", 造成了"@ + crate::styled::decimal(damage as nat) + "点伤害!"@;
        if after_blow(defender_qi, damage) > 0 {
            seq![line]
        } else {
            seq![line, defender + "倒下了!"@]
        }
    } else {
        seq![rendered(action.description@, attacker, defender, ""@, "拳头"@) + ", 但是被"@ + defender + "躲过了。"@]
    }
}

/// Whether the draws of a round fit it: the action is picked among those
/// open at the attacker's level of the skill (none when none is open), the
/// strike is decided by two rolls below 10, and the damage of a landed
/// strike lies in its range.
pub open spec fn draws_fit(skill: Skill, attacker: Fighter, defender: Fighter, action: Option<Action>, hit: bool, damage: u32) -> bool {
    let level = skill_level(attacker.skills@, skill.name@, 0);
    &&& (action is None <==> forall|i: int| 0 <= i < skill.actions@.len() ==> skill.actions@[i].lvl > level)
    &&& (action matches Some(a) ==> open_action(skill, level, a))
    &&& (action matches Some(a) ==> exists|ra: int, rd: int| 0 <= ra < 10 && 0 <= rd < 10
            && hit == #[trigger] strike_lands(attacker, defender, ra, rd))
    &&& (action matches Some(a) ==> hit ==> exists|x: int|
            damage_low(attacker.strength + a.damage) <= x <= damage_high(attacker.strength + a.damage)
            && damage == #[trigger] at_least_one(x))
}

/// The fighters and messages after a round of a fighter that is not busy,
/// with the given draws.
pub open spec fn round_result(a0: Fighter, d0: Fighter, a1: Fighter, d1: Fighter, messages: Seq<Seq<char>>, action: Option<Action>, hit: bool, damage: u32) -> bool {
    match action {
        None => a1 == a0 && d1 == d0 && messages == seq![a0.name@ + " cannot find a suitable action."@],
        Some(a) => {
            &&& a1.busy == ATTACK_COOLDOWN
            &&& a1.name == a0.name && a1.qi == a0.qi && a1.skills == a0.skills
            &&& a1.strength == a0.strength && a1.dexterity == a0.dexterity
            &&& d1.qi == (if hit { after_blow(d0.qi, damage as int) } else { d0.qi })
            &&& d1.name == d0.name && d1.busy == d0.busy && d1.skills == d0.skills
            &&& d1.strength == d0.strength && d1.dexterity == d0.dexterity
            &&& messages == struck_messages(a0.name@, d0.name@, d0.qi, a, hit, damage as int)
        },
    }
}

/// A copy of an action.
fn copy_action(a: &Action) -> (r: Action)
    ensures
        r == *a,
{
    Action {
        lvl: a.lvl,
        damage: a.damage,
        force: a.force,
        dodge: a.dodge,
        parry: a.parry,
        damage_type: a.damage_type,
        description: a.description.clone(),
    }
}

impl Fighter {
    /// Takes a blow: qi falls by `damage`, not below 0.
    pub fn take_damage(&mut self, damage: u32)
        ensures
            final(self).qi == after_blow(old(self).qi, damage as int),
            final(self).name == old(self).name,
            final(self).busy == old(self).busy,
            final(self).skills == old(self).skills,
            final(self).strength == old(self).strength,
            final(self).dexterity == old(self).dexterity,
    {
        self.qi = if self.qi > damage { self.qi - damage } else { 0 };
    }

    /// Whether the fighter still has qi.
    pub fn is_alive(&self) -> (r: bool)
        ensures
            r == (self.qi > 0),
    {
        self.qi > 0
    }

    /// The level of the named skill, or `default` when untrained.
    pub fn skill_or(&self, name: &str, default: u32) -> (r: u32)
        ensures
            r == skill_level(self.skills@, name@, default as int),
    {
        let ghost v0 = counts_view(self.skills@);
        proof { lemma_counter_index(v0, name@); }
        let mut i: usize = 0;
        while i < self.skills.len()
            invariant
                i <= self.skills.len(),
                v0 == counts_view(self.skills@),
                forall|j: int| 0 <= j < i ==> v0[j].0 != name@,
            decreases self.skills.len() - i,
        {
            if same_text(self.skills[i].0.as_str(), name) {
                proof {
                    assert(v0[i as int].0 == name@);
                    lemma_counter_index(v0, name@);
                    assert(counter_index(v0, name@) == i);
                }
                return self.skills[i].1;
            }
            i = i + 1;
        }
        proof {
            if counter_index(v0, name@) >= 0 {
                assert(v0[counter_index(v0, name@)].0 == name@);
            }
        }
        default
    }
}

impl CombatEngine {
    /// Picks at random one of the skill's actions whose level is at most
    /// `level`; none when there is no such action.
    pub fn select_action(skill: &Skill, level: u32) -> (r: Option<Action>)
        ensures
            r is None <==> forall|i: int| 0 <= i < skill.actions@.len() ==> skill.actions@[i].lvl > level,
            r matches Some(a) ==> open_action(*skill, level as int, a),
    {
        let mut open: Vec<usize> = Vec::new();
        let mut i: usize = 0;
        while i < skill.actions.len()
            invariant
                i <= skill.actions.len(),
                forall|k: int| 0 <= k < open@.len() ==> 0 <= #[trigger] open@[k] < skill.actions@.len()
                    && skill.actions@[open@[k] as int].lvl <= level,
                forall|j: int| 0 <= j < i && skill.actions@[j].lvl <= level ==> open@.contains(j as usize),
            decreases skill.actions.len() - i,
        {
            let ghost before = open@;
            if skill.actions[i].lvl <= level {
                open.push(i);
                proof {
                    assert(open@[open@.len() - 1] == i);
                    assert forall|j: int| 0 <= j < i && skill.actions@[j].lvl <= level implies open@.contains(j as usize) by {
                        let k = choose|k: int| 0 <= k < before.len() && before[k] == j as usize;
                        assert(open@[k] == j as usize);
                    }
                }
            }
            i = i + 1;
        }
        match choose_from(open.as_slice()) {
            None => {
                proof {
                    assert forall|j: int| 0 <= j < skill.actions@.len() implies skill.actions@[j].lvl > level by {
                        if skill.actions@[j].lvl <= level {
                            assert(open@.contains(j as usize));
                        }
                    }
                }
                None
            },
            Some(k) => {
                proof {
                    let w = choose|m: int| 0 <= m < open@.len() && open@[m] == k;
                    assert(0 <= open@[w] < skill.actions@.len());
                }
                let a = copy_action(&skill.actions[k]);
                proof {
                    let w = choose|m: int| 0 <= m < open@.len() && open@[m] == k;
                    assert(skill.actions@[open@[w] as int].lvl <= level);
                    assert(open_action(*skill, level as int, a));
                }
                Some(a)
            },
        }
    }

    /// Whether the attack lands with the given rolls of attack and dodge.
    pub fn hit_check_with(attacker: &Fighter, defender: &Fighter, ra: u32, rd: u32) -> (r: bool)
        ensures
            r == strike_lands(*attacker, *defender, ra as int, rd as int),
    {
        let attack_skill = attacker.skill_or(DEFAULT_ATTACK_SKILL, 1);
        let dodge_skill = defender.skill_or(DEFAULT_DODGE_SKILL, 1);
        let ap: u128 = 12 * attack_skill as u128 + 20 * attacker.strength as u128 + 10 * ra as u128;
        let dp: u128 = 11 * dodge_skill as u128 + 20 * defender.dexterity as u128 + 10 * rd as u128;
        ap > dp
    }

    /// Whether an attack lands, each side rolling a number below 10.
    pub fn hit_check(attacker: &Fighter, defender: &Fighter) -> (r: bool)
        ensures
            exists|ra: int, rd: int| 0 <= ra < 10 && 0 <= rd < 10 && r == strike_lands(*attacker, *defender, ra, rd),
    {
        let ra = roll_in(0, 9) as u32;
        let rd = roll_in(0, 9) as u32;
        Self::hit_check_with(attacker, defender, ra, rd)
    }

    /// The damage of a blow: a number drawn between four and six fifths of
    /// strength plus the action's damage, and at least 1.
    pub fn calculate_damage(attacker: &Fighter, action: &Action) -> (r: u32)
        requires
            attacker.strength + action.damage <= u32::MAX,
        ensures
            exists|x: int| damage_low(attacker.strength + action.damage) <= x <= damage_high(attacker.strength + action.damage)
                && r == #[trigger] at_least_one(x),
    {
        let base: u64 = attacker.strength as u64 + action.damage as u64;
        let low: u64 = base * 4 / 5;
        let high0: u64 = base * 6 / 5;
        let high: u64 = if high0 > u32::MAX as u64 { u32::MAX as u64 } else { high0 };
        let x = roll_in(low as i64, high as i64);
        let d: u32 = x as u32;
        let r: u32 = if d < 1 { 1 } else { d };
        assert(r == at_least_one(x as int));
        r
    }

    /// One round of combat with the draws already made: the action picked
    /// (none when the skill has no open action), whether the strike lands
    /// and the damage it deals.
    pub fn execute_attack_with(
        attacker: &mut Fighter,
        defender: &mut Fighter,
        action: Option<Action>,
        hit: bool,
        damage: u32,
    ) -> (log: CombatLog)
        ensures
            old(attacker).busy > 0 ==> {
                &&& *final(attacker) == *old(attacker)
                &&& *final(defender) == *old(defender)
                &&& log.messages@.len() == 1
                &&& log.messages@[0]@ == old(attacker).name@ + " is busy and cannot attack."@
            },
            old(attacker).busy == 0 && action is None ==> {
                &&& *final(attacker) == *old(attacker)
                &&& *final(defender) == *old(defender)
                &&& log.messages@.len() == 1
                &&& log.messages@[0]@ == old(attacker).name@ + " cannot find a suitable action."@
            },
            old(attacker).busy == 0 ==> (action matches Some(a) ==> {
                &&& final(attacker).busy == ATTACK_COOLDOWN
                &&& final(attacker).name == old(attacker).name
                &&& final(attacker).qi == old(attacker).qi
                &&& final(attacker).skills == old(attacker).skills
                &&& final(attacker).strength == old(attacker).strength
                &&& final(attacker).dexterity == old(attacker).dexterity
                &&& final(defender).qi == (if hit { after_blow(old(defender).qi, damage as int) } else { old(defender).qi })
                &&& final(defender).name == old(defender).name
                &&& final(defender).busy == old(defender).busy
                &&& final(defender).skills == old(defender).skills
                &&& final(defender).strength == old(defender).strength
                &&& final(defender).dexterity == old(defender).dexterity
                &&& log.messages@.map_values(|m: String| m@) == struck_messages(
                    old(attacker).name@, old(defender).name@, old(defender).qi, a, hit, damage as int)
            }),
    {
        let mut messages: Vec<String> = Vec::new();
        if attacker.busy > 0 {
            let mut m = attacker.name.clone();
            m.append(" is busy and cannot attack.");
            messages.push(m);
            return CombatLog { messages };
        }
        let action = match action {
            Some(a) => a,
            None => {
                let mut m = attacker.name.clone();
                m.append(" cannot find a suitable action.");
                messages.push(m);
                return CombatLog { messages };
            },
        };
        attacker.busy = ATTACK_COOLDOWN;
        proof {
            reveal_strlit("胸口");
            reveal_strlit("拳头");
            reveal_strlit("");
        }
        if hit {
            defender.take_damage(damage);
            let mut line = render_names(action.description.as_str(), attacker.name.as_str(), defender.name.as_str(), "胸口", "拳头");
            line.append(", 造成了");
            line.append(u64_text(damage as u64).as_str());
            line.append("点伤害!");
            messages.push(line);
            if !defender.is_alive() {
                let mut fall = defender.name.clone();
                fall.append("倒下了!");
                messages.push(fall);
            }
        } else {
            let mut line = render_names(action.description.as_str(), attacker.name.as_str(), defender.name.as_str(), "", "拳头");
            line.append(", 但是被");
            line.append(defender.name.as_str());
            line.append("躲过了。");
            messages.push(line);
        }
        proof {
            assert(messages@.map_values(|m: String| m@) =~= struck_messages(
                old(attacker).name@, old(defender).name@, old(defender).qi, action, hit, damage as int));
        }
        CombatLog { messages }
    }

    /// Executes a full combat round between an attacker and a defender:
    /// a busy attacker does nothing; else an action open at the attacker's
    /// level of the skill is picked at random, the attacker waits
    /// `ATTACK_COOLDOWN` rounds, and the strike, if it lands, deals damage.
    pub fn execute_attack(attacker: &mut Fighter, defender: &mut Fighter, skill: &Skill) -> (log: CombatLog)
        requires
            forall|i: int| 0 <= i < skill.actions@.len() ==> old(attacker).strength + #[trigger] skill.actions@[i].damage <= u32::MAX,
        ensures
            old(attacker).busy > 0 ==> {
                &&& *final(attacker) == *old(attacker)
                &&& *final(defender) == *old(defender)
                &&& log.messages@.len() == 1
                &&& log.messages@[0]@ == old(attacker).name@ + " is busy and cannot attack."@
            },
            old(attacker).busy == 0 ==> exists|action: Option<Action>, hit: bool, damage: u32|
                #[trigger] draws_fit(*skill, *old(attacker), *old(defender), action, hit, damage)
                && round_result(*old(attacker), *old(defender), *final(attacker), *final(defender),
                    log.messages@.map_values(|m: String| m@), action, hit, damage),
    {
        if attacker.busy > 0 {
            return Self::execute_attack_with(attacker, defender, None, false, 0);
        }
        let level = attacker.skill_or(skill.name.as_str(), 0);
        let action = Self::select_action(skill, level);
        let (hit, damage) = match &action {
            None => (false, 0u32),
            Some(a) => {
                proof {
                    let i = choose|i: int| 0 <= i < skill.actions@.len() && skill.actions@[i].lvl <= level && skill.actions@[i] == *a;
                    assert(attacker.strength + skill.actions@[i].damage <= u32::MAX);
                }
                let h = Self::hit_check(attacker, defender);
                if h {
                    (true, Self::calculate_damage(attacker, a))
                } else {
                    (false, 0u32)
                }
            },
        };
        let ghost a0 = *old(attacker);
        let ghost d0 = *old(defender);
        let ghost act = action;
        let log = Self::execute_attack_with(attacker, defender, action, hit, damage);
        proof {
            assert(draws_fit(*skill, a0, d0, act, hit, damage));
            if act is None {
                assert(log.messages@.map_values(|m: String| m@) =~= seq![a0.name@ + " cannot find a suitable action."@]);
            }
            assert(round_result(a0, d0, *attacker, *defender, log.messages@.map_values(|m: String| m@), act, hit, damage));
        }
        log
    }
}

} // verus!
