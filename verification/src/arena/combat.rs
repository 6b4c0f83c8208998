//! Unarmed combat rounds between two fighters.

use vstd::prelude::*;
use crate::arena::player_state::{DerivedStats, PlayerState};
use crate::chance::{choose_from, roll_in};
use crate::styled::{i64_text, signed_decimal};
use crate::world::world_text::{replace_all, replaced};

verus! {

/// A fighter of the arena.
pub trait Combatant {
    /// The fighter's id.
    spec fn id_of(&self) -> usize;
    /// The fighter's name.
    spec fn name_of(&self) -> Seq<char>;
    /// The fighter's state.
    spec fn state_of(&self) -> PlayerState;

    fn get_id(&self) -> (r: usize)
        ensures
            r == self.id_of();

    fn get_name(&self) -> (r: &str)
        ensures
            r@ == self.name_of();

    fn get_state(&self) -> (r: &PlayerState)
        ensures
            *r == self.state_of();

    fn get_mut_state(&mut self) -> (r: &mut PlayerState)
        ensures
            *r == old(self).state_of(),
            final(self).state_of() == *final(r),
            final(self).id_of() == old(self).id_of(),
            final(self).name_of() == old(self).name_of();
}

/// Lowers the fighter's hp by `amount`, not below 0, and tells whether it
/// has reached 0.
pub fn apply_damage<C: Combatant>(defender: &mut C, amount: i32) -> (dead: bool)
    requires
        i32::MIN <= old(defender).state_of().derived.hp - amount <= i32::MAX,
    ensures
        final(defender).state_of() == (PlayerState {
            derived: DerivedStats {
                hp: if old(defender).state_of().derived.hp - amount < 0 { 0 } else { (old(defender).state_of().derived.hp - amount) as i32 },
                ..old(defender).state_of().derived
            },
            ..old(defender).state_of()
        }),
        final(defender).id_of() == old(defender).id_of(),
        final(defender).name_of() == old(defender).name_of(),
        dead == (old(defender).state_of().derived.hp - amount <= 0),
{
    let state = defender.get_mut_state();
    state.derived.hp = state.derived.hp - amount;
    if state.derived.hp < 0 {
        state.derived.hp = 0;
    }
    state.derived.hp == 0
}

/// The flavour of an unarmed attack: the move's name and how its hit or
/// miss reads to the attacker (`$d` standing for the defender) and to the
/// defender.
struct AttackFlavor {
    action: &'static str,
    hit_on_d: &'static str,
    miss_on_d: &'static str,
    hit_on_self: &'static str,
    miss_on_self: &'static str,
}

/// The number of unarmed attack flavours.
pub const UNARMED_ATTACK_COUNT: usize = 3;

/// The name of unarmed move `i`.
pub open spec fn flavor_action(i: int) -> Seq<char> {
    if i == 0 { "黑虎掏心"@ } else if i == 1 { "猛虎下山"@ } else { "直捣黄龙"@ }
}

/// How a hit of move `i` reads to its attacker.
pub open spec fn flavor_hit_on_d(i: int) -> Seq<char> {
    if i == 0 { "正中$d的胸口, $d闷哼一声!"@ } else if i == 1 { "狠狠地砸在了$d的肩膀上!"@ } else { "正中$d的面门, 打得$d眼冒金星!"@ }
}

/// How a miss of move `i` reads to its attacker.
pub open spec fn flavor_miss_on_d(i: int) -> Seq<char> {
    if i == 0 { "被$d机敏地闪了开去."@ } else if i == 1 { "被$d一个懒驴打滚, 险之又险地避开了."@ } else { "被$d轻轻一侧头, 躲了过去."@ }
}

/// How a hit of move `i` reads to its defender.
pub open spec fn flavor_hit_on_self(i: int) -> Seq<char> {
    if i == 0 { "正中你的胸口, 你感觉一阵气血翻涌!"@ } else if i == 1 { "你躲闪不及, 肩膀传来一阵剧痛!"@ } else { "拳头结结实实地打在了你的面门上, 你顿时眼冒金星!"@ }
}

/// How a miss of move `i` reads to its defender.
pub open spec fn flavor_miss_on_self(i: int) -> Seq<char> {
    if i == 0 { "被你机敏地闪开了."@ } else if i == 1 { "你一个懒驴打滚, 险之又险地避开了."@ } else { "你轻轻一侧头, 躲了过去."@ }
}

/// Unarmed move `i`.
fn unarmed_flavor(i: usize) -> (f: AttackFlavor)
    requires
        i < UNARMED_ATTACK_COUNT,
    ensures
        f.action@ == flavor_action(i as int),
        f.hit_on_d@ == flavor_hit_on_d(i as int),
        f.miss_on_d@ == flavor_miss_on_d(i as int),
        f.hit_on_self@ == flavor_hit_on_self(i as int),
        f.miss_on_self@ == flavor_miss_on_self(i as int),
{
    if i == 0 {
        AttackFlavor {
            action: "黑虎掏心",
            hit_on_d: "正中$d的胸口, $d闷哼一声!",
            miss_on_d: "被$d机敏地闪了开去.",
            hit_on_self: "正中你的胸口, 你感觉一阵气血翻涌!",
            miss_on_self: "被你机敏地闪开了.",
        }
    } else if i == 1 {
        AttackFlavor {
            action: "猛虎下山",
            hit_on_d: "狠狠地砸在了$d的肩膀上!",
            miss_on_d: "被$d一个懒驴打滚, 险之又险地避开了.",
            hit_on_self: "你躲闪不及, 肩膀传来一阵剧痛!",
            miss_on_self: "你一个懒驴打滚, 险之又险地避开了.",
        }
    } else {
        AttackFlavor {
            action: "直捣黄龙",
            hit_on_d: "正中$d的面门, 打得$d眼冒金星!",
            miss_on_d: "被$d轻轻一侧头, 躲了过去.",
            hit_on_self: "拳头结结实实地打在了你的面门上, 你顿时眼冒金星!",
            miss_on_self: "你轻轻一侧头, 躲了过去.",
        }
    }
}

/// Whether `hp / max_hp`, read as the float division does, lies above
/// `num / den` (exact when `max_hp` is not 0; with `max_hp` 0, only a
/// positive `hp`, an infinite ratio, lies above).
pub open spec fn ratio_above(hp: int, max_hp: int, num: int, den: int) -> bool {
    if max_hp > 0 {
        hp * den > num * max_hp
    } else if max_hp < 0 {
        hp * den < num * max_hp
    } else {
        hp > 0
    }
}

/// The reaction shown for a wounded fighter: 0 above seven tenths of its
/// hp, 1 above three tenths, else 2.
pub open spec fn reaction_index(hp: int, max_hp: int) -> int {
    if ratio_above(hp, max_hp, 7, 10) { 0 } else if ratio_above(hp, max_hp, 3, 10) { 1 } else { 2 }
}

/// How reaction `i` reads to the attacker (`$d` standing for the defender).
pub open spec fn reaction_desc_for_a(i: int) -> Seq<char> {
    if i == 0 { "( $d看起来似乎没什么大碍. )"@ } else if i == 1 { "( $d闷哼了一声, 脸色有些发白. )"@ } else { "( $d受到了不轻的创伤, 脚步变得有些不稳. )"@ }
}

/// How reaction `i` reads to the defender.
pub open spec fn reaction_desc_for_d(i: int) -> Seq<char> {
    if i == 0 { "( 你看起来似乎没什么大碍. )"@ } else if i == 1 { "( 你闷哼了一声, 脸色有些发白. )"@ } else { "( 你受到了不轻的创伤, 脚步变得有些不稳. )"@ }
}

/// The style class of reaction `i`.
pub open spec fn reaction_class(i: int) -> Seq<char> {
    if i == 0 { "reaction-light"@ } else if i == 1 { "reaction-medium"@ } else { "reaction-heavy"@ }
}

/// A reaction to a blow: how it reads to either side and its style class.
pub struct DamageReaction {
    pub desc_for_a: &'static str,
    pub desc_for_d: &'static str,
    pub class: &'static str,
}

/// The reaction of a fighter left with `current_hp` of `max_hp`.
pub fn get_damage_reaction(current_hp: i32, max_hp: i32) -> (r: DamageReaction)
    ensures
        r.desc_for_a@ == reaction_desc_for_a(reaction_index(current_hp as int, max_hp as int)),
        r.desc_for_d@ == reaction_desc_for_d(reaction_index(current_hp as int, max_hp as int)),
        r.class@ == reaction_class(reaction_index(current_hp as int, max_hp as int)),
{
    let hp = current_hp as i64;
    let max = max_hp as i64;
    let above7 = if max > 0 { hp * 10 > 7 * max } else if max < 0 { hp * 10 < 7 * max } else { hp > 0 };
    let above3 = if max > 0 { hp * 10 > 3 * max } else if max < 0 { hp * 10 < 3 * max } else { hp > 0 };
    if above7 {
        DamageReaction {
            desc_for_a: "( $d看起来似乎没什么大碍. )",
            desc_for_d: "( 你看起来似乎没什么大碍. )",
            class: "reaction-light",
        }
    } else if above3 {
        DamageReaction {
            desc_for_a: "( $d闷哼了一声, 脸色有些发白. )",
            desc_for_d: "( 你闷哼了一声, 脸色有些发白. )",
            class: "reaction-medium",
        }
    } else {
        DamageReaction {
            desc_for_a: "( $d受到了不轻的创伤, 脚步变得有些不稳. )",
            desc_for_d: "( 你受到了不轻的创伤, 脚步变得有些不稳. )",
            class: "reaction-heavy",
        }
    }
}

/// The outcome of an attack, as the clients see it.
#[derive(Clone, Copy, Debug)]
pub struct AttackResult {
    pub attacker_id: usize,
    pub defender_id: usize,
    pub damage_dealt: i32,
    pub is_hit: bool,
    pub defender_is_dead: bool,
}

/// The chance of a hit, in thousandths: 0.85 plus 0.025 per point of
/// agility the attacker has over the defender, kept within 0.1 and 0.99.
pub open spec fn hit_permille(attacker_agility: int, defender_agility: int) -> int {
    let c = 850 + 25 * (attacker_agility - defender_agility);
    if c < 100 { 100 } else if c > 990 { 990 } else { c }
}

/// The chance, in thousandths, that the attacker hits the defender.
pub fn calculate_hit_chance<A: Combatant, D: Combatant>(attacker: &A, defender: &D) -> (r: i64)
    ensures
        r == hit_permille(attacker.state_of().base.agility as int, defender.state_of().base.agility as int),
{
    let aa = attacker.get_state().base.agility as i64;
    let da = defender.get_state().base.agility as i64;
    let c = 850 + 25 * (aa - da);
    if c < 100 { 100 } else if c > 990 { 990 } else { c }
}

/// The lowest physical damage of a fighter of strength `s`: nine tenths of
/// it, cut toward zero.
pub open spec fn damage_floor(s: int) -> int {
    crate::combat::quot_toward_zero(9 * s, 10)
}

/// One past the highest physical damage of a fighter of strength `s`:
/// thirteen tenths of it, cut toward zero and kept within `i32` as the
/// float-to-integer cast does.
pub open spec fn damage_ceiling(s: int) -> int {
    crate::combat::saturate_i32(crate::combat::quot_toward_zero(13 * s, 10))
}

/// Physical damage: a number drawn in `damage_floor(s)..damage_ceiling(s)`
/// for the attacker's strength `s`, and at least 1.
pub fn calculate_physical_damage<A: Combatant>(attacker: &A) -> (r: i32)
    requires
        damage_floor(attacker.state_of().base.strength as int) < damage_ceiling(attacker.state_of().base.strength as int),
    ensures
        exists|x: int| damage_floor(attacker.state_of().base.strength as int) <= x
            < damage_ceiling(attacker.state_of().base.strength as int)
            && r == #[trigger] crate::world::combat::at_least_one(x),
{
    let s = attacker.get_state().base.strength as i64;
    let lo: i64 = if s >= 0 { 9 * s / 10 } else { -((-9 * s) / 10) };
    let h: i64 = if s >= 0 { 13 * s / 10 } else { -((-13 * s) / 10) };
    let hi: i64 = if h > i32::MAX as i64 { i32::MAX as i64 } else if h < i32::MIN as i64 { i32::MIN as i64 } else { h };
    let x = roll_in(lo, hi - 1);
    let d: i32 = if x < 1 { 1 } else { x as i32 };
    assert(d == crate::world::combat::at_least_one(x as int));
    d
}

/// The experience a fighter gains for a kill.
pub const KILL_EXPERIENCE: u64 = 50;

/// The level from which a fighter gains no more experience for kills.
pub const EXPERIENCE_LEVEL_CAP: u32 = 100;

/// What a round of combat tells each side, with its result.
pub struct RoundOutcome {
    pub result: AttackResult,
    pub to_attacker: Vec<String>,
    pub to_defender: Vec<String>,
}

/// The head of the attacker's line: the move used.
pub open spec fn move_head(action: Seq<char>) -> Seq<char> {
    "<span class=\"combat-base\">你使出一式 </span><span class=\"combat-skill\">「"@ + action + "」</span><span class=\"combat-base\">, "@
}

/// The head of the defender's line: who used which move.
pub open spec fn move_head_on_self(attacker: Seq<char>, action: Seq<char>) -> Seq<char> {
    "<span class=\"combat-base\">"@ + attacker + "对你使出一式 </span><span class=\"combat-skill\">「"@ + action + "」</span><span class=\"combat-base\">, "@
}

/// The attacker's line for a hit.
pub open spec fn hit_line(action: Seq<char>, how: Seq<char>, damage: int) -> Seq<char> {
    move_head(action) + how + " 造成了</span><span class=\"combat-damage\">"@ + signed_decimal(damage)
        + "</span><span class=\"combat-base\">点伤害.</span>"@
}

/// The defender's line for a hit.
pub open spec fn hit_line_on_self(attacker: Seq<char>, action: Seq<char>, how: Seq<char>, damage: int) -> Seq<char> {
    move_head_on_self(attacker, action) + how + " 你受到了</span><span class=\"combat-damage\">"@ + signed_decimal(damage)
        + "</span><span class=\"combat-base\">点伤害.</span>"@
}

/// A reaction appended to a hit line.
pub open spec fn reaction_tail(class: Seq<char>, desc: Seq<char>) -> Seq<char> {
    "<br/><span class=\""@ + class + "\">"@ + desc + "</span>"@
}

/// The attacker's line for a miss.
pub open spec fn miss_line(action: Seq<char>, how: Seq<char>) -> Seq<char> {
    move_head(action) + "但<span class=\"combat-miss\">"@ + how + "</span></span>"@
}

/// The defender's line for a miss.
pub open spec fn miss_line_on_self(attacker: Seq<char>, action: Seq<char>, how: Seq<char>) -> Seq<char> {
    move_head_on_self(attacker, action) + "但<span class=\"combat-miss\">"@ + how + "</span></span>"@
}

/// The attacker's line when the defender falls.
pub open spec fn fall_line(defender: Seq<char>) -> Seq<char> {
    "<span class=\"reaction-crit\">"@ + defender + "惨叫一声, 倒在了血泊之中.</span>"@
}

/// The defender's line when it falls.
pub open spec fn fall_line_on_self() -> Seq<char> {
    "<span class=\"reaction-crit\">你眼前一黑, 失去了知觉...</span>"@
}

/// The attacker's line for the experience a kill gives.
pub open spec fn experience_line() -> Seq<char> {
    "<span class=\"combat-xp\">你获得了 50 点经验.</span>"@
}

/// `text` with each `$d` replaced by the defender's name.
pub open spec fn on_d(text: Seq<char>, defender: Seq<char>) -> Seq<char> {
    replaced(text, "$d"@, defender)
}

/// The defender's hp after a blow of `damage`: lowered, not below 0.
pub open spec fn hp_after(hp: int, damage: int) -> int {
    if hp - damage < 0 { 0 } else { hp - damage }
}

/// Whether a round with these draws can be played without overflow: the
/// blow fits the defender's hp, and a kill's experience fits the attacker's.
pub open spec fn round_fits(a: PlayerState, d: PlayerState, damage: int) -> bool {
    &&& i32::MIN <= d.derived.hp - damage <= i32::MAX
    &&& a.progression.experience + KILL_EXPERIENCE <= u64::MAX
}

/// The messages to the attacker and to the defender for a round with move
/// `f` that hits (with `damage`) or misses.
pub open spec fn round_messages(attacker: Seq<char>, defender: Seq<char>, a: PlayerState, d: PlayerState, f: int, hit: bool, damage: int) -> (Seq<Seq<char>>, Seq<Seq<char>>) {
    if !hit {
        (seq![miss_line(flavor_action(f), on_d(flavor_miss_on_d(f), defender))],
         seq![miss_line_on_self(attacker, flavor_action(f), flavor_miss_on_self(f))])
    } else if d.derived.hp - damage <= 0 {
        let to_a = seq![hit_line(flavor_action(f), on_d(flavor_hit_on_d(f), defender), damage), fall_line(defender)];
        (if a.progression.level < EXPERIENCE_LEVEL_CAP { to_a.push(experience_line()) } else { to_a },
         seq![hit_line_on_self(attacker, flavor_action(f), flavor_hit_on_self(f), damage), fall_line_on_self()])
    } else {
        let r = reaction_index(hp_after(d.derived.hp as int, damage), d.derived.max_hp as int);
        (seq![hit_line(flavor_action(f), on_d(flavor_hit_on_d(f), defender), damage)
                + reaction_tail(reaction_class(r), on_d(reaction_desc_for_a(r), defender))],
         seq![hit_line_on_self(attacker, flavor_action(f), flavor_hit_on_self(f), damage)
                + reaction_tail(reaction_class(r), reaction_desc_for_d(r))])
    }
}

/// The attacker's state after a round: a kill below the level cap gives
/// experience.
pub open spec fn attacker_after(a: PlayerState, d: PlayerState, hit: bool, damage: int) -> PlayerState {
    if hit && d.derived.hp - damage <= 0 && a.progression.level < EXPERIENCE_LEVEL_CAP {
        PlayerState {
            progression: crate::arena::player_state::Progression {
                experience: (a.progression.experience + KILL_EXPERIENCE) as u64,
                ..a.progression
            },
            ..a
        }
    } else {
        a
    }
}

/// The defender's state after a round: a hit lowers its hp.
pub open spec fn defender_after(d: PlayerState, hit: bool, damage: int) -> PlayerState {
    if hit {
        PlayerState { derived: DerivedStats { hp: hp_after(d.derived.hp as int, damage) as i32, ..d.derived }, ..d }
    } else {
        d
    }
}

/// A move's head for the attacker.
fn push_move_head(out: &mut String, action: &str)
    ensures
        final(out)@ == old(out)@ + move_head(action@),
{
    out.append("<span class=\"combat-base\">你使出一式 </span><span class=\"combat-skill\">「");
    out.append(action);
    out.append("」</span><span class=\"combat-base\">, ");
}

/// A move's head for the defender.
fn push_move_head_on_self(out: &mut String, attacker: &str, action: &str)
    ensures
        final(out)@ == old(out)@ + move_head_on_self(attacker@, action@),
{
    out.append("<span class=\"combat-base\">");
    out.append(attacker);
    out.append("对你使出一式 </span><span class=\"combat-skill\">「");
    out.append(action);
    out.append("」</span><span class=\"combat-base\">, ");
}

/// One round of an unarmed attack with the draws already made: the move
/// `flavor`, whether it hits, and the damage of a hit. A hit lowers the
/// defender's hp (not below 0); a kill below the level cap gives the
/// attacker experience.
pub fn resolve_attack_round_with<A: Combatant, D: Combatant>(
    attacker: &mut A,
    defender: &mut D,
    flavor: usize,
    hit: bool,
    damage: i32,
) -> (out: RoundOutcome)
    requires
        flavor < UNARMED_ATTACK_COUNT,
        round_fits(old(attacker).state_of(), old(defender).state_of(), damage as int),
    ensures
        out.result == (AttackResult {
            attacker_id: old(attacker).id_of(),
            defender_id: old(defender).id_of(),
            damage_dealt: if hit { damage } else { 0 },
            is_hit: hit,
            defender_is_dead: hit && old(defender).state_of().derived.hp - damage <= 0,
        }),
        final(attacker).state_of() == attacker_after(old(attacker).state_of(), old(defender).state_of(), hit, damage as int),
        final(defender).state_of() == defender_after(old(defender).state_of(), hit, damage as int),
        final(attacker).id_of() == old(attacker).id_of(),
        final(attacker).name_of() == old(attacker).name_of(),
        final(defender).id_of() == old(defender).id_of(),
        final(defender).name_of() == old(defender).name_of(),
        (out.to_attacker@.map_values(|m: String| m@), out.to_defender@.map_values(|m: String| m@))
            == round_messages(old(attacker).name_of(), old(defender).name_of(), old(attacker).state_of(),
                old(defender).state_of(), flavor as int, hit, damage as int),
{
    let ghost a0 = attacker.state_of();
    let ghost d0 = defender.state_of();
    let attacker_name = String::from_str(attacker.get_name());
    let defender_name = String::from_str(defender.get_name());
    let f = unarmed_flavor(flavor);
    proof { reveal_strlit("$d"); }
    let ghost msgs = round_messages(attacker_name@, defender_name@, a0, d0, flavor as int, hit, damage as int);
    let mut result = AttackResult {
        attacker_id: attacker.get_id(),
        defender_id: defender.get_id(),
        damage_dealt: 0,
        is_hit: false,
        defender_is_dead: false,
    };
    let mut to_attacker: Vec<String> = Vec::new();
    let mut to_defender: Vec<String> = Vec::new();
    if hit {
        result.is_hit = true;
        result.damage_dealt = damage;
        let is_dead = apply_damage(defender, damage);
        result.defender_is_dead = is_dead;
        let mut am = String::new();
        push_move_head(&mut am, f.action);
        am.append(replace_all(f.hit_on_d, "$d", defender_name.as_str()).as_str());
        am.append(" 造成了</span><span class=\"combat-damage\">");
        am.append(i64_text(damage as i64).as_str());
        am.append("</span><span class=\"combat-base\">点伤害.</span>");
        let mut dm = String::new();
        push_move_head_on_self(&mut dm, attacker_name.as_str(), f.action);
        dm.append(f.hit_on_self);
        dm.append(" 你受到了</span><span class=\"combat-damage\">");
        dm.append(i64_text(damage as i64).as_str());
        dm.append("</span><span class=\"combat-base\">点伤害.</span>");
        assert(am@ == hit_line(flavor_action(flavor as int), on_d(flavor_hit_on_d(flavor as int), defender_name@), damage as int));
        if is_dead {
            to_attacker.push(am);
            to_defender.push(dm);
            let mut fall = String::from_str("<span class=\"reaction-crit\">");
            fall.append(defender_name.as_str());
            fall.append("惨叫一声, 倒在了血泊之中.</span>");
            to_attacker.push(fall);
            to_defender.push(String::from_str("<span class=\"reaction-crit\">你眼前一黑, 失去了知觉...</span>"));
            if attacker.get_state().progression.level < EXPERIENCE_LEVEL_CAP {
                let st = attacker.get_mut_state();
                st.progression.experience = st.progression.experience + KILL_EXPERIENCE;
                to_attacker.push(String::from_str("<span class=\"combat-xp\">你获得了 50 点经验.</span>"));
            }
            assert(to_attacker@.map_values(|m: String| m@) =~= msgs.0);
            assert(to_defender@.map_values(|m: String| m@) =~= msgs.1);
        } else {
            let def_state = defender.get_state();
            let reaction = get_damage_reaction(def_state.derived.hp, def_state.derived.max_hp);
            assert(def_state.derived.hp == hp_after(d0.derived.hp as int, damage as int));
            assert(def_state.derived.max_hp == d0.derived.max_hp);
            let ghost r = reaction_index(hp_after(d0.derived.hp as int, damage as int), d0.derived.max_hp as int);
            am.append("<br/><span class=\"");
            am.append(reaction.class);
            am.append("\">");
            am.append(replace_all(reaction.desc_for_a, "$d", defender_name.as_str()).as_str());
            am.append("</span>");
            dm.append("<br/><span class=\"");
            dm.append(reaction.class);
            dm.append("\">");
            dm.append(reaction.desc_for_d);
            dm.append("</span>");
            assert(am@ == hit_line(flavor_action(flavor as int), on_d(flavor_hit_on_d(flavor as int), defender_name@), damage as int)
                + reaction_tail(reaction_class(r), on_d(reaction_desc_for_a(r), defender_name@)));
            assert(dm@ == hit_line_on_self(attacker_name@, flavor_action(flavor as int), flavor_hit_on_self(flavor as int), damage as int)
                + reaction_tail(reaction_class(r), reaction_desc_for_d(r)));
            to_attacker.push(am);
            to_defender.push(dm);
            assert(to_attacker@.map_values(|m: String| m@) =~= msgs.0);
            assert(to_defender@.map_values(|m: String| m@) =~= msgs.1);
        }
    } else {
        let mut am = String::new();
        push_move_head(&mut am, f.action);
        am.append("但<span class=\"combat-miss\">");
        am.append(replace_all(f.miss_on_d, "$d", defender_name.as_str()).as_str());
        am.append("</span></span>");
        let mut dm = String::new();
        push_move_head_on_self(&mut dm, attacker_name.as_str(), f.action);
        dm.append("但<span class=\"combat-miss\">");
        dm.append(f.miss_on_self);
        dm.append("</span></span>");
        assert(am@ == miss_line(flavor_action(flavor as int), on_d(flavor_miss_on_d(flavor as int), defender_name@)));
        assert(dm@ == miss_line_on_self(attacker_name@, flavor_action(flavor as int), flavor_miss_on_self(flavor as int)));
        to_attacker.push(am);
        to_defender.push(dm);
        assert(to_attacker@.map_values(|m: String| m@) =~= msgs.0);
        assert(to_defender@.map_values(|m: String| m@) =~= msgs.1);
    }
    proof {
        assert(to_attacker@.map_values(|m: String| m@) =~= msgs.0);
        assert(to_defender@.map_values(|m: String| m@) =~= msgs.1);
    }
    RoundOutcome { result, to_attacker, to_defender }
}

/// One round of an unarmed attack: a move drawn at random, a hit drawn
/// with the chance of `calculate_hit_chance` (a number drawn below 1000
/// falling under it), and on a hit a damage drawn by
/// `calculate_physical_damage`. That chance lies between a tenth and 99
/// hundredths, so either outcome of the hit can come.
pub fn resolve_attack_round<A: Combatant, D: Combatant>(attacker: &mut A, defender: &mut D) -> (out: RoundOutcome)
    requires
        damage_floor(old(attacker).state_of().base.strength as int) < damage_ceiling(old(attacker).state_of().base.strength as int),
        round_fits(old(attacker).state_of(), old(defender).state_of(), damage_ceiling(old(attacker).state_of().base.strength as int)),
    ensures
        exists|f: int, hit: bool, damage: i32| {
            &&& 0 <= f < UNARMED_ATTACK_COUNT
            &&& (hit ==> exists|x: int| damage_floor(old(attacker).state_of().base.strength as int) <= x
                        < damage_ceiling(old(attacker).state_of().base.strength as int)
                        && damage == #[trigger] crate::world::combat::at_least_one(x))
            &&& #[trigger] round_played(old(attacker).id_of(), old(defender).id_of(), old(attacker).name_of(), old(defender).name_of(),
                    old(attacker).state_of(), old(defender).state_of(), final(attacker).state_of(), final(defender).state_of(), out, f,
                    hit, damage)
        },
        final(attacker).id_of() == old(attacker).id_of(),
        final(attacker).name_of() == old(attacker).name_of(),
        final(defender).id_of() == old(defender).id_of(),
        final(defender).name_of() == old(defender).name_of(),
{
    let picks: [usize; 3] = [0, 1, 2];
    let flavor = match choose_from(&picks) {
        Some(i) => i,
        None => 0,
    };
    proof {
        assert(picks@ == seq![0usize, 1, 2]);
    }
    let chance = calculate_hit_chance(attacker, defender);
    let roll = roll_in(0, 999);
    let hit = roll < chance;
    let damage = if hit { calculate_physical_damage(attacker) } else { 0 };
    let out = resolve_attack_round_with(attacker, defender, flavor, hit, damage);
    proof {
        assert(round_played(old(attacker).id_of(), old(defender).id_of(), old(attacker).name_of(), old(defender).name_of(),
            old(attacker).state_of(), old(defender).state_of(), attacker.state_of(), defender.state_of(), out,
            flavor as int, hit, damage));
    }
    out
}

/// Whether `out` and the states after a round are those of a round played
/// with move `f`, hitting or not, with `damage`.
pub open spec fn round_played(
    attacker_id: usize, defender_id: usize, attacker: Seq<char>, defender: Seq<char>,
    a0: PlayerState, d0: PlayerState, a1: PlayerState, d1: PlayerState,
    out: RoundOutcome, f: int, hit: bool, damage: i32,
) -> bool {
    &&& out.result == (AttackResult {
            attacker_id, defender_id,
            damage_dealt: if hit { damage } else { 0 },
            is_hit: hit,
            defender_is_dead: hit && d0.derived.hp - damage <= 0,
        })
    &&& a1 == attacker_after(a0, d0, hit, damage as int)
    &&& d1 == defender_after(d0, hit, damage as int)
    &&& (out.to_attacker@.map_values(|m: String| m@), out.to_defender@.map_values(|m: String| m@))
            == round_messages(attacker, defender, a0, d0, f, hit, damage as int)
}

} // verus!
