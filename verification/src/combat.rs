//! Turn-based combat arithmetic: hit chances, damage, skills and healing.

use vstd::prelude::*;
use vstd::string::*;
use crate::styled::{Text, Style, Color, spec_plain_style, spec_color, spec_color_bold, plain_style, color, color_bold, signed_decimal, i64_text, same_text, chars_of, string_of};
use crate::world_model::{HealthStateTemplate, SkillMove, SkillTemplate};
use crate::chance::roll_in;

verus! {

/// The outcome of one attack or skill.
pub enum CombatResult {
    Hit { damage: i32, is_crit: bool, log: Text },
    Miss { log: Text },
    TargetKilled { damage: i32, is_crit: bool, log: Text },
    InsufficientQi { log: Text },
    Heal { amount: i32, log: Text },
}

/// A fight in progress, from one side's point of view.
pub struct CombatState {
    pub target_id: String,
    pub target_name: String,
    pub target_is_player: bool,
    pub current_skill_id: String,
    pub combo_index: usize,
    pub last_attack_tick: u64,
    pub is_in_combat: bool,
}

impl CombatState {
    /// A fight that starts at `tick` with the first move of `skill_id`.
    pub fn new(
        target_id: String,
        target_name: String,
        target_is_player: bool,
        skill_id: String,
        tick: u64,
    ) -> (s: CombatState)
        ensures
            s.target_id@ == target_id@,
            s.target_name@ == target_name@,
            s.target_is_player == target_is_player,
            s.current_skill_id@ == skill_id@,
            s.combo_index == 0,
            s.last_attack_tick == tick,
            s.is_in_combat,
    {
        CombatState {
            target_id,
            target_name,
            target_is_player,
            current_skill_id: skill_id,
            combo_index: 0,
            last_attack_tick: tick,
            is_in_combat: true,
        }
    }
}

/// The numbers of a fighter that an attack reads.
pub struct CombatStats {
    pub hp: i32,
    pub max_hp: i32,
    pub attack: i32,
    pub defense: i32,
    pub level: i32,
    pub name: String,
    pub is_player: bool,
    pub str: i32,
    pub dex: i32,
    pub int: i32,
}


// ---------------------------------------------------------------------------
// Arithmetic of a blow
// ---------------------------------------------------------------------------

/// Integer division that rounds toward zero, as Rust's `/` and a float-to-int
/// cast do (`b > 0`).
pub open spec fn quot_toward_zero(a: int, b: int) -> int {
    if a >= 0 { a / b } else { -((-a) / b) }
}

/// A value clamped into the range of `i32`, as a float-to-`i32` cast does.
pub open spec fn saturate_i32(x: int) -> int {
    if x > i32::MAX { i32::MAX as int } else if x < i32::MIN { i32::MIN as int } else { x }
}

/// A `u32` read as an `i32` (`as i32`): values above `i32::MAX` wrap to negatives.
pub open spec fn u32_as_i32(x: u32) -> int {
    if x <= i32::MAX { x as int } else { x - 0x1_0000_0000 }
}

/// Attack plus twice the level.
pub open spec fn base_damage(s: CombatStats) -> int {
    s.attack + 2 * s.level
}

/// What is left of `damage` after half the defense (rounded toward zero), at least 1.
pub open spec fn after_defense(damage: int, defense: int) -> int {
    let v = damage - quot_toward_zero(defense, 2);
    if v < 1 { 1 } else { v }
}

/// A value times one and a half, rounded toward zero and kept in `i32`.
pub open spec fn one_and_half(x: int) -> int {
    saturate_i32(quot_toward_zero(3 * x, 2))
}

/// A value times a factor given in thousandths, rounded toward zero and kept in `i32`.
pub open spec fn times_permille(x: int, permille: int) -> int {
    saturate_i32(quot_toward_zero(x * permille, 1000))
}

/// The attribute a skill scales with: strength, dexterity, intelligence, or 16.
pub open spec fn scaling_value(attr: Seq<char>, str: i32, dex: i32, intel: i32) -> int {
    if attr == "str"@ { str as int }
    else if attr == "dex"@ { dex as int }
    else if attr == "int"@ { intel as int }
    else { 16 }
}

/// The damage of a skill: its base damage plus the scaled attribute.
pub open spec fn skill_damage(skill: SkillTemplate, str: i32, dex: i32, intel: i32) -> int {
    skill.base_damage + times_permille(
        scaling_value(skill.scaling_attr@, str, dex, intel),
        skill.scaling_multiplier_permille as int,
    )
}

/// Whether a value fits in `i32`.
pub open spec fn fits_i32(x: int) -> bool {
    i32::MIN <= x <= i32::MAX
}

/// Attack plus twice the level (`calculate_base_damage`).
pub fn calculate_base_damage(attacker_stats: &CombatStats) -> (r: i32)
    requires
        fits_i32(2 * attacker_stats.level),
        fits_i32(base_damage(*attacker_stats)),
    ensures
        r == base_damage(*attacker_stats),
{
    attacker_stats.attack + attacker_stats.level * 2
}

/// Half of a value, rounded toward zero.
pub(crate) fn half_toward_zero(x: i32) -> (r: i64)
    ensures
        r == quot_toward_zero(x as int, 2),
{
    let v = x as i64;
    if v >= 0 { v / 2 } else { -((-v) / 2) }
}

/// Damage after the defender's defense: `damage - defense / 2`, at least 1.
pub fn calculate_defense_reduction(damage: i32, defender_defense: i32) -> (r: i32)
    requires
        fits_i32(damage - quot_toward_zero(defender_defense as int, 2)),
    ensures
        r == after_defense(damage as int, defender_defense as int),
{
    let v: i64 = damage as i64 - half_toward_zero(defender_defense);
    if v < 1 { 1 } else { v as i32 }
}

/// Saturating conversion to `i32`.
fn clamp_to_i32(x: i64) -> (r: i32)
    ensures
        r == saturate_i32(x as int),
{
    if x > i32::MAX as i64 {
        i32::MAX
    } else if x < i32::MIN as i64 {
        i32::MIN
    } else {
        x as i32
    }
}

/// `x` times `permille` thousandths, rounded toward zero, kept in `i32`.
pub fn scale_permille(x: i32, permille: i32) -> (r: i32)
    ensures
        r == times_permille(x as int, permille as int),
{
    let a: i64 = x as i64;
    let b: i64 = permille as i64;
    assert(-0x4000_0000_0000_0000 <= a * b <= 0x4000_0000_0000_0000) by (nonlinear_arith)
        requires -0x8000_0000 <= a <= 0x8000_0000, -0x8000_0000 <= b <= 0x8000_0000;
    let p: i64 = a * b;
    let q: i64 = if p >= 0 { p / 1000 } else { -((-p) / 1000) };
    clamp_to_i32(q)
}

/// One and a half times a value, rounded toward zero, kept in `i32`.
pub fn one_and_a_half(x: i32) -> (r: i32)
    ensures
        r == one_and_half(x as int),
{
    let p: i64 = 3 * (x as i64);
    let q: i64 = if p >= 0 { p / 2 } else { -((-p) / 2) };
    clamp_to_i32(q)
}

/// The damage of a skill for the given attributes: its base damage plus the
/// scaling attribute (`str`, `dex` or `int`, else 16) times its multiplier.
pub fn calculate_skill_damage(skill: &SkillTemplate, str: i32, dex: i32, intel: i32) -> (r: i32)
    requires
        fits_i32(skill_damage(*skill, str, dex, intel)),
    ensures
        r == skill_damage(*skill, str, dex, intel),
{
    let attr = skill.scaling_attr.as_str();
    let value: i32 = if same_text(attr, "str") {
        str
    } else if same_text(attr, "dex") {
        dex
    } else if same_text(attr, "int") {
        intel
    } else {
        16
    };
    let scaling_damage = scale_permille(value, skill.scaling_multiplier_permille);
    skill.base_damage + scaling_damage
}

/// The attribute value a skill scales with (see `scaling_value`).
pub(crate) fn scaling_of(skill: &SkillTemplate, str: i32, dex: i32, intel: i32) -> (v: i32)
    ensures
        v == scaling_value(skill.scaling_attr@, str, dex, intel),
{
    let attr = skill.scaling_attr.as_str();
    if same_text(attr, "str") {
        str
    } else if same_text(attr, "dex") {
        dex
    } else if same_text(attr, "int") {
        intel
    } else {
        16
    }
}

/// Whether a value fits in `i32`.
pub(crate) fn in_i32(x: i64) -> (r: bool)
    ensures
        r == fits_i32(x as int),
{
    i32::MIN as i64 <= x && x <= i32::MAX as i64
}

/// Whether the arithmetic of an attack (with or without a skill) stays
/// within `i32`, critical or not: the test a caller makes before
/// `resolve_attack`.
pub fn attack_in_range(att: &CombatStats, def: &CombatStats, skill: Option<&SkillTemplate>) -> (r: bool)
    ensures
        r == attack_fits(*att, *def, opt_skill(skill)),
{
    let raw: i64 = match skill {
        Some(k) => {
            let v = scaling_of(k, att.str, att.dex, att.int);
            k.base_damage as i64 + scale_permille(v, k.scaling_multiplier_permille) as i64
        },
        None => att.attack as i64 + 2 * (att.level as i64),
    };
    let level_ok = match skill {
        Some(_) => true,
        None => in_i32(2 * (att.level as i64)),
    };
    let half = half_toward_zero(def.defense);
    if !(level_ok && in_i32(raw) && in_i32(raw - half)) {
        return false;
    }
    in_i32(one_and_a_half(raw as i32) as i64 - half)
}

/// Whether `current_qi` pays for the skill.
pub fn check_can_cast_skill(skill: &SkillTemplate, current_qi: i32) -> (r: bool)
    ensures
        r == (current_qi >= u32_as_i32(skill.cost_qi)),
{
    current_qi as i64 >= u32_to_i32(skill.cost_qi) as i64
}

/// A `u32` read as an `i32`.
pub fn u32_to_i32(x: u32) -> (r: i32)
    ensures
        r == u32_as_i32(x),
{
    if x <= 2147483647 {
        x as i32
    } else {
        (x as i64 - 4294967296) as i32
    }
}

/// The qi and health that a skill costs.
pub fn get_skill_cost(skill: &SkillTemplate) -> (r: (i32, i32))
    ensures
        r.0 == u32_as_i32(skill.cost_qi),
        r.1 == u32_as_i32(skill.cost_hp),
{
    (u32_to_i32(skill.cost_qi), u32_to_i32(skill.cost_hp))
}

/// The skill a new player fights with.
pub fn get_default_skill_for_player() -> (r: String)
    ensures
        r@ == "sword_1"@,
{
    "sword_1".to_string()
}


// ---------------------------------------------------------------------------
// Attacks, heals and combo moves
// ---------------------------------------------------------------------------

/// A combat result with its log as styled spans.
pub enum CombatResultView {
    Hit { damage: i32, is_crit: bool, log: Seq<(Seq<char>, Style)> },
    Miss { log: Seq<(Seq<char>, Style)> },
    TargetKilled { damage: i32, is_crit: bool, log: Seq<(Seq<char>, Style)> },
    InsufficientQi { log: Seq<(Seq<char>, Style)> },
    Heal { amount: i32, log: Seq<(Seq<char>, Style)> },
}

impl View for CombatResult {
    type V = CombatResultView;

    open spec fn view(&self) -> CombatResultView {
        match self {
            CombatResult::Hit { damage, is_crit, log } => CombatResultView::Hit { damage: *damage, is_crit: *is_crit, log: log@ },
            CombatResult::Miss { log } => CombatResultView::Miss { log: log@ },
            CombatResult::TargetKilled { damage, is_crit, log } => CombatResultView::TargetKilled { damage: *damage, is_crit: *is_crit, log: log@ },
            CombatResult::InsufficientQi { log } => CombatResultView::InsufficientQi { log: log@ },
            CombatResult::Heal { amount, log } => CombatResultView::Heal { amount: *amount, log: log@ },
        }
    }
}

/// The chance to hit, in percent: 80, plus 5 per level above the defender,
/// kept within 50..=95.
pub open spec fn hit_chance(attacker_level: int, defender_level: int) -> int {
    let c = 80 + (attacker_level - defender_level) * 5;
    if c < 50 { 50 } else if c > 95 { 95 } else { c }
}

/// The chance of a critical blow, in percent: 10 plus a fifth of the level.
pub open spec fn crit_chance(level: int) -> int {
    10 + quot_toward_zero(level, 5)
}

/// The skill behind an optional reference.
pub open spec fn opt_skill(s: Option<&SkillTemplate>) -> Option<SkillTemplate> {
    match s {
        Some(k) => Some(*k),
        None => None,
    }
}

/// The damage of a blow before a critical hit and the defense: the skill's
/// damage, or the base damage without a skill.
pub open spec fn raw_damage(att: CombatStats, skill: Option<SkillTemplate>) -> int {
    match skill {
        Some(k) => skill_damage(k, att.str, att.dex, att.int),
        None => base_damage(att),
    }
}

/// The name a blow is announced with.
pub open spec fn blow_name(skill: Option<SkillTemplate>) -> Seq<char> {
    match skill {
        Some(k) => k.name@,
        None => "普通攻击"@,
    }
}

/// The arithmetic of an attack stays within `i32`, critical or not.
pub open spec fn attack_fits(att: CombatStats, def: CombatStats, skill: Option<SkillTemplate>) -> bool {
    &&& (skill is None ==> fits_i32(2 * att.level))
    &&& fits_i32(raw_damage(att, skill))
    &&& fits_i32(raw_damage(att, skill) - quot_toward_zero(def.defense as int, 2))
    &&& fits_i32(one_and_half(raw_damage(att, skill)) - quot_toward_zero(def.defense as int, 2))
}

pub open spec fn miss_log(a: Seq<char>, d: Seq<char>) -> Seq<(Seq<char>, Style)> {
    seq![
        ("你"@, spec_plain_style()),
        (a, spec_color(Color::Yellow)),
        ("对"@, spec_plain_style()),
        (d, spec_color(Color::Cyan)),
        ("的攻击落空了！"@, spec_plain_style()),
    ]
}

pub open spec fn attack_log(a: Seq<char>, d: Seq<char>, name: Seq<char>, damage: int, crit: bool) -> Seq<(Seq<char>, Style)> {
    if crit {
        seq![
            ("你"@, spec_plain_style()),
            (a, spec_color(Color::Yellow)),
            ("运转功法，对"@, spec_plain_style()),
            (d, spec_color(Color::Cyan)),
            ("使出"@, spec_plain_style()),
            (name, spec_plain_style()),
            ("，造成了"@, spec_plain_style()),
            (signed_decimal(damage), spec_color_bold(Color::Red)),
            ("点"@, spec_plain_style()),
            ("暴击！"@, spec_color_bold(Color::Red)),
            ("！"@, spec_plain_style()),
        ]
    } else {
        seq![
            ("你"@, spec_plain_style()),
            (a, spec_color(Color::Yellow)),
            ("对"@, spec_plain_style()),
            (d, spec_color(Color::Cyan)),
            ("使出"@, spec_plain_style()),
            (name, spec_plain_style()),
            ("，造成了"@, spec_plain_style()),
            (signed_decimal(damage), spec_color(Color::Red)),
            ("点伤害。"@, spec_plain_style()),
        ]
    }
}

/// The outcome of an attack for a hit roll and a critical roll, each in `0..100`:
/// a miss when the hit roll is above the hit chance; otherwise the damage
/// (one and a half times on a critical roll below the critical chance) after
/// the defense, which kills when it takes the defender's health to 0 or below.
pub open spec fn attack_outcome(
    att: CombatStats,
    def: CombatStats,
    skill: Option<SkillTemplate>,
    hit_roll: int,
    crit_roll: int,
) -> CombatResultView {
    if hit_roll > hit_chance(att.level as int, def.level as int) {
        CombatResultView::Miss { log: miss_log(att.name@, def.name@) }
    } else {
        let crit = crit_roll < crit_chance(att.level as int);
        let raw = raw_damage(att, skill);
        let b = if crit { one_and_half(raw) } else { raw };
        let fin = after_defense(b, def.defense as int);
        let log = attack_log(att.name@, def.name@, blow_name(skill), fin, crit);
        if def.hp - fin <= 0 {
            CombatResultView::TargetKilled { damage: fin as i32, is_crit: crit, log }
        } else {
            CombatResultView::Hit { damage: fin as i32, is_crit: crit, log }
        }
    }
}

/// An attack decided by the given rolls (see `attack_outcome`).
pub fn resolve_attack_with_rolls(
    attacker_stats: &CombatStats,
    defender_stats: &CombatStats,
    skill_opt: Option<&SkillTemplate>,
    hit_roll: i32,
    crit_roll: i32,
) -> (r: CombatResult)
    requires
        attack_fits(*attacker_stats, *defender_stats, opt_skill(skill_opt)),
    ensures
        r@ == attack_outcome(*attacker_stats, *defender_stats, opt_skill(skill_opt), hit_roll as int, crit_roll as int),
{
    let level_diff: i64 = attacker_stats.level as i64 - defender_stats.level as i64;
    let c: i64 = 80 + level_diff * 5;
    let chance: i64 = if c < 50 { 50 } else if c > 95 { 95 } else { c };
    if hit_roll as i64 > chance {
        let mut log = Text::new();
        log.push_plain("你");
        log.push(attacker_stats.name.as_str(), color(Color::Yellow));
        log.push_plain("对");
        log.push(defender_stats.name.as_str(), color(Color::Cyan));
        log.push_plain("的攻击落空了！");
        assert(log@ =~= miss_log(attacker_stats.name@, defender_stats.name@));
        return CombatResult::Miss { log };
    }
    let mut damage: i32 = match skill_opt {
        Some(skill) => calculate_skill_damage(skill, attacker_stats.str, attacker_stats.dex, attacker_stats.int),
        None => calculate_base_damage(attacker_stats),
    };
    let lv = attacker_stats.level as i64;
    let crit_chance_now: i64 = 10 + (if lv >= 0 { lv / 5 } else { -((-lv) / 5) });
    let is_crit = (crit_roll as i64) < crit_chance_now;
    if is_crit {
        damage = one_and_a_half(damage);
    }
    let final_damage = calculate_defense_reduction(damage, defender_stats.defense);
    let will_kill = defender_stats.hp as i64 - final_damage as i64 <= 0;
    let name: &str = match skill_opt {
        Some(skill) => skill.name.as_str(),
        None => "普通攻击",
    };
    let mut log = Text::new();
    log.push_plain("你");
    log.push(attacker_stats.name.as_str(), color(Color::Yellow));
    if is_crit {
        log.push_plain("运转功法，对");
    } else {
        log.push_plain("对");
    }
    log.push(defender_stats.name.as_str(), color(Color::Cyan));
    log.push_plain("使出");
    log.push_plain(name);
    log.push_plain("，造成了");
    if is_crit {
        log.push_string(i64_text(final_damage as i64), color_bold(Color::Red));
        log.push_plain("点");
        log.push("暴击！", color_bold(Color::Red));
        log.push_plain("！");
    } else {
        log.push_string(i64_text(final_damage as i64), color(Color::Red));
        log.push_plain("点伤害。");
    }
    assert(log@ =~= attack_log(attacker_stats.name@, defender_stats.name@, blow_name(opt_skill(skill_opt)), final_damage as int, is_crit));
    if will_kill {
        CombatResult::TargetKilled { damage: final_damage, is_crit, log }
    } else {
        CombatResult::Hit { damage: final_damage, is_crit, log }
    }
}

/// An attack with a skill or a plain blow: rolls to hit and, on a hit, for a
/// critical blow. The result is the outcome for some pair of rolls in `0..100`.
pub fn resolve_attack(
    attacker_stats: &CombatStats,
    defender_stats: &CombatStats,
    skill_opt: Option<&SkillTemplate>,
) -> (r: CombatResult)
    requires
        attack_fits(*attacker_stats, *defender_stats, opt_skill(skill_opt)),
    ensures
        exists|h: int, c: int| 0 <= h < 100 && 0 <= c < 100
            && r@ == attack_outcome(*attacker_stats, *defender_stats, opt_skill(skill_opt), h, c),
{
    let hit_roll = roll_in(0, 99) as i32;
    let level_diff: i64 = attacker_stats.level as i64 - defender_stats.level as i64;
    let c: i64 = 80 + level_diff * 5;
    let chance: i64 = if c < 50 { 50 } else if c > 95 { 95 } else { c };
    let crit_roll = if hit_roll as i64 > chance { 0 } else { roll_in(0, 99) as i32 };
    let r = resolve_attack_with_rolls(attacker_stats, defender_stats, skill_opt, hit_roll, crit_roll);
    assert(0 <= hit_roll < 100 && 0 <= crit_roll < 100);
    r
}


/// The health a healing skill restores: half of the absolute skill damage,
/// rounded down, at most what the healer is missing.
pub open spec fn heal_amount(skill: SkillTemplate, healer: CombatStats) -> int {
    let d = skill_damage(skill, healer.str, healer.dex, healer.int);
    let h = (if d < 0 { -d } else { d }) / 2;
    let missing = healer.max_hp - healer.hp;
    if h < missing { h } else { missing }
}

pub open spec fn heal_log(healer: Seq<char>, skill: Seq<char>, amount: int) -> Seq<(Seq<char>, Style)> {
    seq![
        ("你"@, spec_plain_style()),
        (healer, spec_color(Color::Yellow)),
        ("运转灵气，"@, spec_plain_style()),
        (skill, spec_color(Color::Cyan)),
        ("的治疗波笼罩了你自身，恢复了"@, spec_plain_style()),
        (signed_decimal(amount), spec_color_bold(Color::Green)),
        ("点生命！"@, spec_plain_style()),
    ]
}

/// A healing skill cast on oneself.
pub fn resolve_heal(skill: &SkillTemplate, healer_stats: &CombatStats) -> (r: CombatResult)
    requires
        fits_i32(skill_damage(*skill, healer_stats.str, healer_stats.dex, healer_stats.int)),
        skill_damage(*skill, healer_stats.str, healer_stats.dex, healer_stats.int) != i32::MIN,
        fits_i32(healer_stats.max_hp - healer_stats.hp),
    ensures
        r@ == (CombatResultView::Heal {
            amount: heal_amount(*skill, *healer_stats) as i32,
            log: heal_log(healer_stats.name@, skill.name@, heal_amount(*skill, *healer_stats)),
        }),
{
    let d = calculate_skill_damage(skill, healer_stats.str, healer_stats.dex, healer_stats.int);
    let heal_amount = if d < 0 { -d } else { d };
    let actual_heal = heal_amount / 2;
    let missing = healer_stats.max_hp - healer_stats.hp;
    let capped_heal = if actual_heal < missing { actual_heal } else { missing };
    let mut log = Text::new();
    log.push_plain("你");
    log.push(healer_stats.name.as_str(), color(Color::Yellow));
    log.push_plain("运转灵气，");
    log.push(skill.name.as_str(), color(Color::Cyan));
    log.push_plain("的治疗波笼罩了你自身，恢复了");
    log.push_string(i64_text(capped_heal as i64), color_bold(Color::Green));
    log.push_plain("点生命！");
    assert(log@ =~= heal_log(healer_stats.name@, skill.name@, capped_heal as int));
    CombatResult::Heal { amount: capped_heal, log }
}

/// Whether `p` stands in `s` at position `i`.
pub open spec fn starts_at(s: Seq<char>, i: int, p: Seq<char>) -> bool {
    0 <= i && i + p.len() <= s.len() && s.subrange(i, i + p.len()) == p
}

/// A move description from position `i` on, with `{attacker}` and `{defender}`
/// filled with the two names; `acc` is plain text not yet emitted.
pub open spec fn fill_from(desc: Seq<char>, i: int, acc: Seq<char>, a: Seq<char>, d: Seq<char>) -> Seq<(Seq<char>, Style)>
    decreases desc.len() - i,
{
    if i >= desc.len() || i < 0 {
        seq![(acc, spec_plain_style())]
    } else if starts_at(desc, i, "{attacker}"@) {
        proof { reveal_strlit("{attacker}"); }
        seq![(acc, spec_plain_style()), (a, spec_color(Color::Yellow))]
            + fill_from(desc, i + "{attacker}"@.len(), seq![], a, d)
    } else if starts_at(desc, i, "{defender}"@) {
        proof { reveal_strlit("{defender}"); }
        seq![(acc, spec_plain_style()), (d, spec_color(Color::Cyan))]
            + fill_from(desc, i + "{defender}"@.len(), seq![], a, d)
    } else {
        fill_from(desc, i + 1, acc.push(desc[i]), a, d)
    }
}

/// A move description with the attacker's name (yellow) for `{attacker}` and
/// the defender's (cyan) for `{defender}`.
pub open spec fn filled_description(desc: Seq<char>, a: Seq<char>, d: Seq<char>) -> Seq<(Seq<char>, Style)> {
    fill_from(desc, 0, seq![], a, d)
}

/// Whether the characters of `p` stand in `s` at `i`.
pub(crate) fn matches_at(s: &Vec<char>, i: usize, p: &Vec<char>) -> (r: bool)
    requires
        i <= s.len(),
    ensures
        r == starts_at(s@, i as int, p@),
{
    if p.len() > s.len() - i {
        return false;
    }
    let mut j: usize = 0;
    while j < p.len()
        invariant
            i + p.len() <= s.len(),
            j <= p.len(),
            forall|k: int| 0 <= k < j ==> s@[i + k] == p@[k],
        decreases p.len() - j,
    {
        if s[i + j] != p[j] {
            assert(s@.subrange(i as int, i + p.len())[j as int] != p@[j as int]);
            return false;
        }
        j = j + 1;
    }
    assert(s@.subrange(i as int, i + p.len()) =~= p@);
    true
}

/// A move description with the two names filled in.
pub fn fill_roles(desc: &str, attacker: &str, defender: &str) -> (out: Text)
    ensures
        out@ == filled_description(desc@, attacker@, defender@),
{
    let cs = chars_of(desc);
    let pa = chars_of("{attacker}");
    let pd = chars_of("{defender}");
    let mut out = Text::new();
    let mut acc: Vec<char> = Vec::new();
    let mut i: usize = 0;
    while i < cs.len()
        invariant
            cs@ == desc@,
            pa@ == "{attacker}"@,
            pd@ == "{defender}"@,
            i <= cs.len(),
            out@ + fill_from(desc@, i as int, acc@, attacker@, defender@) == filled_description(desc@, attacker@, defender@),
        decreases cs.len() - i,
    {
        proof {
            reveal_strlit("{attacker}");
            reveal_strlit("{defender}");
        }
        let ghost before = out@;
        let ghost acc0 = acc@;
        let ghost i0 = i as int;
        if matches_at(&cs, i, &pa) {
            out.push_string(string_of(acc.as_slice()), plain_style());
            out.push(attacker, color(Color::Yellow));
            acc = Vec::new();
            i = i + 10;
            assert(out@ + fill_from(desc@, i as int, acc@, attacker@, defender@)
                =~= before + fill_from(desc@, i0, acc0, attacker@, defender@));
        } else if matches_at(&cs, i, &pd) {
            out.push_string(string_of(acc.as_slice()), plain_style());
            out.push(defender, color(Color::Cyan));
            acc = Vec::new();
            i = i + 10;
            assert(out@ + fill_from(desc@, i as int, acc@, attacker@, defender@)
                =~= before + fill_from(desc@, i0, acc0, attacker@, defender@));
        } else {
            acc.push(cs[i]);
            i = i + 1;
        }
    }
    let ghost before = out@;
    out.push_string(string_of(acc.as_slice()), plain_style());
    assert(out@ =~= before + fill_from(desc@, i as int, acc@, attacker@, defender@));
    out
}


/// The damage of a combo move before a critical blow: with no moves, the base
/// damage after the defense; otherwise the skill's damage times the move's
/// multiplier, after the defense. The move is `combo_index` modulo the moves.
pub open spec fn move_damage(att: CombatStats, def: CombatStats, skill: SkillTemplate, combo_index: int) -> int {
    if skill.moves.len() == 0 {
        after_defense(base_damage(att), def.defense as int)
    } else {
        let m = skill.moves@[combo_index % skill.moves.len() as int];
        after_defense(
            times_permille(skill_damage(skill, att.str, att.dex, att.int), m.damage_multiplier_permille as int),
            def.defense as int,
        )
    }
}

/// The arithmetic of a combo move stays within `i32`.
pub open spec fn move_fits(att: CombatStats, def: CombatStats, skill: SkillTemplate) -> bool {
    if skill.moves.len() == 0 {
        &&& fits_i32(2 * att.level)
        &&& fits_i32(base_damage(att))
        &&& fits_i32(base_damage(att) - quot_toward_zero(def.defense as int, 2))
    } else {
        &&& fits_i32(skill_damage(skill, att.str, att.dex, att.int))
        &&& forall|k: int| 0 <= k < skill.moves.len() ==> fits_i32(
            times_permille(skill_damage(skill, att.str, att.dex, att.int), #[trigger] skill.moves@[k].damage_multiplier_permille as int)
                - quot_toward_zero(def.defense as int, 2))
    }
}

/// The damage of a combo move, one and a half times on a critical blow.
pub open spec fn move_final_damage(att: CombatStats, def: CombatStats, skill: SkillTemplate, combo_index: int, crit: bool) -> int {
    let d = move_damage(att, def, skill, combo_index);
    if crit { one_and_half(d) } else { d }
}

/// The log of a combo move: the damage, then the move's description with the
/// names filled in (and a critical mark); with no moves, a plain attack line.
pub open spec fn move_log(att: CombatStats, def: CombatStats, skill: SkillTemplate, combo_index: int, crit: bool) -> Seq<(Seq<char>, Style)> {
    let damage = move_final_damage(att, def, skill, combo_index, crit);
    if skill.moves.len() == 0 {
        seq![
            (att.name@, spec_color(Color::Yellow)),
            (" 对 "@, spec_plain_style()),
            (def.name@, spec_color(Color::Cyan)),
            (" 发起了攻击，造成了 "@, spec_plain_style()),
            (signed_decimal(damage), spec_color(Color::Red)),
            (" 点伤害"@, spec_plain_style()),
        ]
    } else {
        let m = skill.moves@[combo_index % skill.moves.len() as int];
        seq![
            ("[伤害: "@, spec_plain_style()),
            (signed_decimal(damage), spec_color_bold(Color::Red)),
            ("] "@, spec_plain_style()),
        ] + filled_description(m.description@, att.name@, def.name@) + (if crit {
            seq![
                (" "@, spec_plain_style()),
                ("【暴击】"@, spec_color_bold(Color::Red)),
                ("暴击！"@, spec_plain_style()),
            ]
        } else {
            seq![]
        })
    }
}

/// One move of a skill's combo, decided by a critical roll in `0..100` (a
/// critical blow below 15): the damage, the log and whether it was critical.
pub fn process_combat_move_with_roll(
    attacker_stats: &CombatStats,
    defender_stats: &CombatStats,
    skill: &SkillTemplate,
    combo_index: usize,
    crit_roll: i32,
) -> (r: (i32, Text, bool))
    requires
        move_fits(*attacker_stats, *defender_stats, *skill),
    ensures
        r.2 == (crit_roll < 15),
        r.0 == move_final_damage(*attacker_stats, *defender_stats, *skill, combo_index as int, r.2),
        r.1@ == move_log(*attacker_stats, *defender_stats, *skill, combo_index as int, r.2),
{
    let is_crit = crit_roll < 15;
    if skill.moves.len() == 0 {
        let base_damage = calculate_base_damage(attacker_stats);
        let final_damage = calculate_defense_reduction(base_damage, defender_stats.defense);
        let damage = if is_crit { one_and_a_half(final_damage) } else { final_damage };
        let mut log = Text::new();
        log.push(attacker_stats.name.as_str(), color(Color::Yellow));
        log.push_plain(" 对 ");
        log.push(defender_stats.name.as_str(), color(Color::Cyan));
        log.push_plain(" 发起了攻击，造成了 ");
        log.push_string(i64_text(damage as i64), color(Color::Red));
        log.push_plain(" 点伤害");
        assert(log@ =~= move_log(*attacker_stats, *defender_stats, *skill, combo_index as int, is_crit));
        return (damage, log, is_crit);
    }
    let move_idx = combo_index % skill.moves.len();
    let mve = &skill.moves[move_idx];
    let scaled = calculate_skill_damage(skill, attacker_stats.str, attacker_stats.dex, attacker_stats.int);
    let with_multiplier = scale_permille(scaled, mve.damage_multiplier_permille);
    assert(fits_i32(times_permille(skill_damage(*skill, attacker_stats.str, attacker_stats.dex, attacker_stats.int),
        skill.moves@[move_idx as int].damage_multiplier_permille as int) - quot_toward_zero(defender_stats.defense as int, 2)));
    let final_damage = calculate_defense_reduction(with_multiplier, defender_stats.defense);
    let damage = if is_crit { one_and_a_half(final_damage) } else { final_damage };
    let mut log = Text::new();
    log.push_plain("[伤害: ");
    log.push_string(i64_text(damage as i64), color_bold(Color::Red));
    log.push_plain("] ");
    log.append(fill_roles(mve.description.as_str(), attacker_stats.name.as_str(), defender_stats.name.as_str()));
    if is_crit {
        log.push_plain(" ");
        log.push("【暴击】", color_bold(Color::Red));
        log.push_plain("暴击！");
    }
    assert(log@ =~= move_log(*attacker_stats, *defender_stats, *skill, combo_index as int, is_crit));
    (damage, log, is_crit)
}

/// One move of a skill's combo with a critical roll drawn at random.
pub fn process_combat_move(
    attacker_stats: &CombatStats,
    defender_stats: &CombatStats,
    skill: &SkillTemplate,
    combo_index: usize,
) -> (r: (i32, Text, bool))
    requires
        move_fits(*attacker_stats, *defender_stats, *skill),
    ensures
        r.0 == move_final_damage(*attacker_stats, *defender_stats, *skill, combo_index as int, r.2),
        r.1@ == move_log(*attacker_stats, *defender_stats, *skill, combo_index as int, r.2),
{
    let roll = roll_in(0, 99) as i32;
    process_combat_move_with_roll(attacker_stats, defender_stats, skill, combo_index, roll)
}

/// Whether `current / max` is at least `threshold` thousandths, read as the
/// float division does: exact when `max` is not 0; with `max` 0, only a
/// positive `current` (an infinite ratio) reaches a threshold.
pub open spec fn ratio_reaches(current: int, max: int, threshold: int) -> bool {
    if max > 0 {
        1000 * current >= threshold * max
    } else if max < 0 {
        1000 * current <= threshold * max
    } else {
        current > 0
    }
}

/// The description of the first state whose threshold the health ratio
/// reaches, else that of the last state.
pub open spec fn health_state(states: Seq<HealthStateTemplate>, current: int, max: int) -> Seq<char>
    decreases states.len(),
{
    if states.len() == 0 {
        "重伤濒死"@
    } else if states.len() == 1 || ratio_reaches(current, max, states[0].hp_threshold_permille as int) {
        states[0].description@
    } else {
        health_state(states.drop_first(), current, max)
    }
}

/// How healthy a fighter looks: "状态良好" when no states are defined, else
/// the first state (from the healthiest) whose threshold the ratio reaches,
/// or the last state when none is reached.
pub fn get_health_state_description(current_hp: i32, max_hp: i32, health_states: &[HealthStateTemplate]) -> (r: String)
    ensures
        health_states@.len() == 0 ==> r@ == "状态良好"@,
        health_states@.len() > 0 ==> r@ == health_state(health_states@, current_hp as int, max_hp as int),
{
    if health_states.len() == 0 {
        return "状态良好".to_string();
    }
    let cur = current_hp as i64;
    let max = max_hp as i64;
    let mut i: usize = 0;
    assert(health_states@.skip(0) =~= health_states@);
    while i < health_states.len()
        invariant
            0 <= i <= health_states@.len(),
            health_states@.len() > 0,
            cur == current_hp, max == max_hp,
            health_state(health_states@, cur as int, max as int) == health_state(health_states@.skip(i as int), cur as int, max as int),
        decreases health_states.len() - i,
    {
        let t = health_states[i].hp_threshold_permille as i64;
        assert(-0x4000_0000_0000_0000 <= t * max <= 0x4000_0000_0000_0000) by (nonlinear_arith)
            requires -0x8000_0000 <= t <= 0x8000_0000, -0x8000_0000 <= max <= 0x8000_0000;
        let tm: i64 = t * max;
        let reached = if max > 0 { 1000 * cur >= tm } else if max < 0 { 1000 * cur <= tm } else { cur > 0 };
        let ghost rest = health_states@.skip(i as int);
        assert(rest[0] == health_states@[i as int]);
        if reached || i + 1 == health_states.len() {
            return health_states[i].description.clone();
        }
        assert(rest.drop_first() =~= health_states@.skip(i + 1));
        i = i + 1;
    }
    "重伤濒死".to_string()
}

} // verus!
