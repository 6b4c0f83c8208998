//! A player: cultivation realm and experience, vitals, money and quests.

use vstd::prelude::*;
use vstd::string::*;
use crate::combat::CombatState;
use crate::styled::{repeated, repeat_text, left_aligned, right_aligned, left_align, right_align, one, Text, Style, Color, spec_plain_style, spec_color, spec_color_bold, plain_style, color, color_bold, decimal, u64_text, same_text, list_has, contains_text, insert_text};
use crate::world_model::{Quest, QuestRewards, Registry, WorldConfig, find_entry};

verus! {

/// Two currencies: spirit crystals and shells.
#[derive(Clone, Copy)]
pub struct Wallet {
    pub crystal: u64,
    pub shell: u64,
}

/// The five base attributes.
#[derive(Clone, Copy)]
pub struct BaseStats {
    pub str: u32,
    pub dex: u32,
    pub int: u32,
    pub con: u32,
    pub luk: u32,
}

/// A quest that a player has taken: the step reached, whether it is done,
/// and the kills counted per monster id.
pub struct PlayerQuestStatus {
    pub quest_id: String,
    pub current_step: u32,
    pub is_completed: bool,
    pub kill_counts: Vec<(String, u32)>,
}

/// A quest status with its texts seen as character sequences.
pub struct QuestStatusView {
    pub quest_id: Seq<char>,
    pub current_step: u32,
    pub is_completed: bool,
    pub kill_counts: Seq<(Seq<char>, u32)>,
}

pub open spec fn counts_view(v: Seq<(String, u32)>) -> Seq<(Seq<char>, u32)> {
    v.map_values(|p: (String, u32)| (p.0@, p.1))
}

impl View for PlayerQuestStatus {
    type V = QuestStatusView;

    open spec fn view(&self) -> QuestStatusView {
        QuestStatusView {
            quest_id: self.quest_id@,
            current_step: self.current_step,
            is_completed: self.is_completed,
            kill_counts: counts_view(self.kill_counts@),
        }
    }
}

/// A player character.
pub struct Player {
    pub id: u64,
    pub name: String,
    pub nick: Option<String>,
    pub gender: String,
    pub sect: Option<String>,
    pub root_id: String,
    pub stats: BaseStats,
    pub wallet: Wallet,
    pub realm_level: u16,
    pub realm_sub_level: u16,
    pub exp: u64,
    pub potential: u64,
    pub age: u16,
    pub lifespan: u16,
    pub hp: u32,
    pub hp_max: u32,
    pub atk: u32,
    pub qi: u32,
    pub qi_max: u32,
    pub stamina: u32,
    pub stamina_max: u32,
    pub is_resting: bool,
    pub last_input_time: u64,
    /// Alias name and the command it stands for.
    pub aliases: Vec<(String, String)>,
    pub active_quests: Vec<PlayerQuestStatus>,
    /// Ids of finished quests, each once.
    pub completed_quests: Vec<String>,
    /// Progress counters by name.
    pub quest_counts: Vec<(String, u32)>,
    pub inventory: Vec<u32>,
    pub combat_state: Option<CombatState>,
    pub default_skill_id: String,
}

/// Maximum health for a constitution and a sub-level: `con * 10 + sub * 30`.
pub open spec fn spec_hp_max(con: u32, sub: u16) -> int {
    con * 10 + sub * 30
}

/// Maximum qi: `(con + int) * 5`, half as much again (rounded down) for a
/// `pseudo` root, capped at `u32::MAX`. Computed on integers: a product in
/// `f32` would round differently once the base reaches 2^23.
pub open spec fn spec_qi_max(stats: BaseStats, pseudo: bool) -> int {
    let base = (stats.con + stats.int) * 5;
    if pseudo {
        if base + base / 2 > u32::MAX { u32::MAX as int } else { base + base / 2 }
    } else {
        base
    }
}

/// The attributes are small enough that the vitals of sub-level `sub` fit in `u32`.
pub open spec fn vitals_fit(stats: BaseStats, sub: u16) -> bool {
    &&& spec_hp_max(stats.con, sub) <= u32::MAX
    &&& (stats.con + stats.int) * 5 <= u32::MAX
}

pub open spec fn min_int(a: int, b: int) -> int {
    if a <= b { a } else { b }
}

/// Experience needed to leave sub-level `sub`: `100 * sub^2`.
pub open spec fn exp_needed(sub: int) -> int {
    100 * sub * sub
}

/// The sub-level and leftover experience after spending `exp` on breakthroughs
/// from sub-level `sub`, up to sub-level 9.
pub open spec fn leveled(sub: int, exp: int) -> (int, int)
    decreases 9 - sub,
{
    if sub < 9 && exp >= exp_needed(sub) {
        leveled(sub + 1, exp - exp_needed(sub))
    } else {
        (sub, exp)
    }
}

/// The line announcing a breakthrough to sub-level `l`.
pub open spec fn breakthrough_line(l: int) -> Seq<char> {
    "【突破】你周身灵气激荡，顺利晋升至[炼气第"@ + decimal(l as nat) + "层]！"@
}

/// The announcements of the breakthroughs from sub-level `from` up to `to`.
pub open spec fn breakthrough_msgs(from: int, to: int) -> Seq<(Seq<char>, Style)>
    decreases to - from,
{
    if to <= from {
        seq![]
    } else {
        breakthrough_msgs(from, to - 1) + seq![
            ("\n"@, spec_plain_style()),
            (breakthrough_line(to), spec_color_bold(Color::Green)),
        ]
    }
}

/// The bottleneck notice: at sub-level 9 of the first realm with 8100
/// experience or more.
pub open spec fn promotion_msg(realm: u16, sub: u16, exp: u64) -> Seq<(Seq<char>, Style)> {
    if realm == 1 && sub == 9 && exp >= 8100 {
        seq![
            ("\n"@, spec_plain_style()),
            ("你感到修为已达凡界瓶颈，需寻得筑基丹方可尝试突破筑基期。"@, spec_color_bold(Color::Yellow)),
        ]
    } else {
        seq![]
    }
}

pub proof fn lemma_leveled_bounds(sub: int, exp: int)
    requires
        exp >= 0,
    ensures
        leveled(sub, exp).0 >= sub,
        sub <= 9 ==> leveled(sub, exp).0 <= 9,
        sub > 9 ==> leveled(sub, exp).0 == sub,
        leveled(sub, exp).1 >= 0,
        leveled(sub, exp).1 <= exp,
    decreases 9 - sub,
{
    if sub < 9 && exp >= exp_needed(sub) {
        assert(exp_needed(sub) >= 0) by (nonlinear_arith)
            requires sub < 9 && exp >= 0 && exp >= exp_needed(sub) && exp_needed(sub) == 100 * sub * sub;
        lemma_leveled_bounds(sub + 1, exp - exp_needed(sub));
    }
}

/// The player after `amount` experience is added and spent on breakthroughs.
pub open spec fn after_exp(p: Player, amount: int) -> Player {
    let t = leveled(p.realm_sub_level as int, p.exp + amount);
    let s = t.0;
    if s > p.realm_sub_level {
        let hp_cap = spec_hp_max(p.stats.con, (p.realm_sub_level + 1) as u16);
        let qi_cap = spec_qi_max(p.stats, p.is_pseudo());
        Player {
            realm_sub_level: s as u16,
            exp: t.1 as u64,
            hp_max: spec_hp_max(p.stats.con, s as u16) as u32,
            atk: (2 * s) as u32,
            qi_max: qi_cap as u32,
            stamina_max: 100,
            hp: min_int(p.hp as int, hp_cap) as u32,
            qi: min_int(p.qi as int, qi_cap) as u32,
            stamina: min_int(p.stamina as int, 100) as u32,
            ..p
        }
    } else {
        Player { exp: t.1 as u64, ..p }
    }
}

/// What adding `amount` experience announces: each breakthrough, then the
/// bottleneck notice if it applies.
pub open spec fn exp_msgs(p: Player, amount: int) -> Seq<(Seq<char>, Style)> {
    let q = after_exp(p, amount);
    breakthrough_msgs(p.realm_sub_level as int, q.realm_sub_level as int) + promotion_msg(
        q.realm_level,
        q.realm_sub_level,
        q.exp,
    )
}

/// Adding `amount` experience keeps the numbers in range.
pub open spec fn exp_fits(p: Player, amount: int) -> bool {
    &&& p.exp + amount <= u64::MAX
    &&& p.realm_sub_level < 9 ==> vitals_fit(p.stats, 9)
}

/// The line that reports the kills counted for a quest.
pub open spec fn progress_line(name: Seq<char>, count: int, target: int) -> Seq<char> {
    "[任务进度] "@ + name + ": "@ + decimal(count as nat) + "/"@ + decimal(target as nat)
}

/// The line that reports a kill quest's goal reached.
pub open spec fn goal_line(name: Seq<char>) -> Seq<char> {
    "你已达成任务“"@ + name + "”的目标！"@
}

/// The position of the first counter named `k`, or -1.
pub open spec fn counter_index(s: Seq<(Seq<char>, u32)>, k: Seq<char>) -> int
    decreases s.len(),
{
    if s.len() == 0 {
        -1
    } else if s.last().0 == k && counter_index(s.drop_last(), k) < 0 {
        s.len() - 1
    } else {
        counter_index(s.drop_last(), k)
    }
}

/// The value of the counter named `k` (0 if there is none).
pub open spec fn counter_of(s: Seq<(Seq<char>, u32)>, k: Seq<char>) -> int {
    let i = counter_index(s, k);
    if i >= 0 { s[i].1 as int } else { 0 }
}

/// The counters after the one named `k` is raised by one (created at 1).
pub open spec fn counter_bumped(s: Seq<(Seq<char>, u32)>, k: Seq<char>) -> Seq<(Seq<char>, u32)> {
    let i = counter_index(s, k);
    if i >= 0 { s.update(i, (k, (s[i].1 + 1) as u32)) } else { s.push((k, 1u32)) }
}

/// Whether a quest counts kills of `monster`.
pub open spec fn counts_kills_of(q: Option<Quest>, monster: Seq<char>) -> bool {
    q matches Some(quest) && quest.quest_type@ == "kill"@ && quest.target_id@ == monster
}

/// The number of kills a quest asks for (1 when it names none).
pub open spec fn kill_target(q: Quest) -> int {
    match q.target_count {
        Some(n) => n as int,
        None => 1,
    }
}

/// A quest status after a kill of `monster`.
pub open spec fn status_after_kill(st: QuestStatusView, q: Option<Quest>, monster: Seq<char>) -> QuestStatusView {
    if counts_kills_of(q, monster) {
        let c = counter_of(st.kill_counts, monster) + 1;
        QuestStatusView {
            kill_counts: counter_bumped(st.kill_counts, monster),
            is_completed: st.is_completed || c >= kill_target(q->0),
            ..st
        }
    } else {
        st
    }
}

/// What a kill of `monster` reports for one quest status.
pub open spec fn kill_msgs(st: QuestStatusView, q: Option<Quest>, monster: Seq<char>) -> Seq<(Seq<char>, Style)> {
    if counts_kills_of(q, monster) {
        let quest = q->0;
        let c = counter_of(st.kill_counts, monster) + 1;
        seq![
            ("\n"@, spec_plain_style()),
            (progress_line(quest.name@, c, kill_target(quest)), spec_color_bold(Color::Green)),
        ] + if c >= kill_target(quest) {
            seq![("\n"@, spec_plain_style()), (goal_line(quest.name@), spec_color_bold(Color::Yellow))]
        } else {
            seq![]
        }
    } else {
        seq![]
    }
}

/// What a kill of `monster` reports for a list of quest statuses, in order.
pub open spec fn all_kill_msgs(sts: Seq<QuestStatusView>, reg: Registry<Quest>, monster: Seq<char>) -> Seq<(Seq<char>, Style)>
    decreases sts.len(),
{
    if sts.len() == 0 {
        seq![]
    } else {
        all_kill_msgs(sts.drop_last(), reg, monster) + kill_msgs(sts.last(), reg.lookup(sts.last().quest_id), monster)
    }
}

pub open spec fn status_views(v: Seq<PlayerQuestStatus>) -> Seq<QuestStatusView> {
    v.map_values(|st: PlayerQuestStatus| st@)
}

/// No counter that a kill of `monster` would raise is at its maximum.
pub open spec fn kills_fit(sts: Seq<QuestStatusView>, reg: Registry<Quest>, monster: Seq<char>) -> bool {
    forall|i: int| 0 <= i < sts.len() && counts_kills_of(reg.lookup(sts[i].quest_id), monster) ==>
        counter_of(#[trigger] sts[i].kill_counts, monster) < u32::MAX
}

/// The top and bottom border of a reward notice.
pub open spec fn reward_border() -> (Seq<char>, Style) {
    ("--------------------------------------"@, spec_color_bold(Color::Yellow))
}

/// One line of a reward notice: a label, a plus sign and the amount.
pub open spec fn reward_line(label: Seq<char>, amount: u64, tail: Seq<(Seq<char>, Style)>) -> Seq<(Seq<char>, Style)> {
    seq![
        (label, spec_color(Color::Cyan)),
        (" "@, spec_plain_style()),
        ("+"@, spec_color_bold(Color::Green)),
        (" "@, spec_plain_style()),
        (decimal(amount as nat), spec_color_bold(Color::Green)),
    ] + tail + seq![("\n"@, spec_plain_style())]
}

/// The notice of a quest reward; `lvl` is what the experience announced.
pub open spec fn reward_msgs(r: QuestRewards, lvl: Seq<(Seq<char>, Style)>) -> Seq<(Seq<char>, Style)> {
    seq![
        reward_border(),
        ("\n"@, spec_plain_style()),
        ("[ 任务圆满完成！ ]"@, spec_color_bold(Color::Green)),
        ("\n"@, spec_plain_style()),
        reward_border(),
        ("\n"@, spec_plain_style()),
        ("获得奖励："@, spec_color_bold(Color::White)),
        ("\n"@, spec_plain_style()),
    ] + (match r.shell { Some(n) => reward_line("● 灵贝:"@, n, seq![]), None => seq![] })
      + (match r.potential { Some(n) => reward_line("● 潜能:"@, n, seq![]), None => seq![] })
      + (match r.exp { Some(n) => reward_line("● 修为:"@, n, lvl), None => seq![] })
      + seq![reward_border()]
}

/// The player after the money and potential of a reward, before its experience.
pub open spec fn after_money(p: Player, r: QuestRewards) -> Player {
    Player {
        wallet: Wallet {
            shell: match r.shell { Some(n) => (p.wallet.shell + n) as u64, None => p.wallet.shell },
            ..p.wallet
        },
        potential: match r.potential { Some(n) => (p.potential + n) as u64, None => p.potential },
        ..p
    }
}

/// The player after a whole reward.
pub open spec fn after_reward(p: Player, r: QuestRewards) -> Player {
    match r.exp {
        Some(n) => after_exp(after_money(p, r), n as int),
        None => after_money(p, r),
    }
}

/// A reward keeps the numbers in range.
pub open spec fn reward_fits(p: Player, r: QuestRewards) -> bool {
    &&& r.shell matches Some(n) ==> p.wallet.shell + n <= u64::MAX
    &&& r.potential matches Some(n) ==> p.potential + n <= u64::MAX
    &&& r.exp matches Some(n) ==> exp_fits(p, n as int)
}

pub proof fn lemma_counter_index(s: Seq<(Seq<char>, u32)>, k: Seq<char>)
    ensures
        -1 <= counter_index(s, k) < s.len(),
        counter_index(s, k) >= 0 ==> s[counter_index(s, k)].0 == k && forall|j: int|
            0 <= j < counter_index(s, k) ==> s[j].0 != k,
        counter_index(s, k) < 0 ==> forall|j: int| 0 <= j < s.len() ==> s[j].0 != k,
    decreases s.len(),
{
    if s.len() > 0 {
        let d = s.drop_last();
        lemma_counter_index(d, k);
        assert forall|j: int| 0 <= j < d.len() implies d[j] == s[j] by {}
    }
}

/// Whether one of the statuses is for quest `id`.
pub open spec fn has_active_quest(sts: Seq<PlayerQuestStatus>, id: Seq<char>) -> bool {
    exists|i: int| 0 <= i < sts.len() && #[trigger] sts[i].quest_id@ == id
}

/// The statuses after a kill of `monster`, each by its own quest.
pub open spec fn statuses_after_kill(sts: Seq<QuestStatusView>, reg: Registry<Quest>, monster: Seq<char>) -> Seq<QuestStatusView> {
    Seq::new(sts.len(), |j: int| status_after_kill(sts[j], reg.lookup(sts[j].quest_id), monster))
}

/// The Chinese numeral of a sub-level from 1 to 9, `?` otherwise.
pub open spec fn cn_digit(n: int) -> Seq<char> {
    if n == 1 { "一"@ }
    else if n == 2 { "二"@ }
    else if n == 3 { "三"@ }
    else if n == 4 { "四"@ }
    else if n == 5 { "五"@ }
    else if n == 6 { "六"@ }
    else if n == 7 { "七"@ }
    else if n == 8 { "八"@ }
    else if n == 9 { "九"@ }
    else { "?"@ }
}

/// The Chinese numeral of a sub-level from 1 to 9, `?` otherwise.
pub fn cn_digit_text(n: u16) -> (r: &'static str)
    ensures
        r@ == cn_digit(n as int),
{
    match n {
        1 => "一",
        2 => "二",
        3 => "三",
        4 => "四",
        5 => "五",
        6 => "六",
        7 => "七",
        8 => "八",
        9 => "九",
        _ => "?",
    }
}

/// The filled cells of a bar of `width` cells for `current` out of `max`:
/// the ratio times the width, rounded half away from zero, at most `width`,
/// and none when `max` is 0. Computed exactly on integers.
pub open spec fn fill_cells(current: int, max: int, width: int) -> int {
    if max <= 0 {
        0
    } else {
        let r = (2 * current * width + max) / (2 * max);
        if r > width { width } else { r }
    }
}

/// A vitals bar: the label, the filled and empty cells, and `current/max`.
pub open spec fn bar_msgs(label: Seq<char>, current: u32, max: u32, c: Color, width: nat) -> Seq<(Seq<char>, Style)> {
    let fill = fill_cells(current as int, max as int, width as int) as nat;
    seq![
        (left_aligned(label, 5), spec_color(Color::White)),
        (" "@, spec_plain_style()),
        (repeated("█"@, fill), spec_color(c)),
        (repeated("░"@, (width - fill) as nat), spec_color(Color::Rgb(50, 50, 50))),
        (" "@ + right_aligned(decimal(current as nat), 4) + "/"@ + left_aligned(decimal(max as nat), 4), spec_plain_style()),
    ]
}

/// The realm shown on the score screen.
pub open spec fn score_realm(realm: u16, sub: u16) -> Seq<char> {
    if realm == 1 { "炼气"@ + cn_digit(sub as int) + "层"@ } else { "未知"@ }
}

pub open spec fn grey() -> Style {
    spec_color(Color::Rgb(100, 100, 100))
}

/// A horizontal rule of the score screen, between two corner characters.
pub open spec fn score_rule(left: Seq<char>, mid: Seq<char>, right: Seq<char>) -> Seq<(Seq<char>, Style)> {
    seq![(left, spec_plain_style()), (mid, grey()), (right + "\n"@, spec_plain_style())]
}

pub open spec fn double_rule() -> Seq<char> {
    repeated("═"@, 46)
}

pub open spec fn single_rule() -> Seq<char> {
    repeated("─"@, 46)
}

/// One row of three attributes on the score screen.
pub open spec fn stat_row(
    l1: Seq<char>, v1: u32, c1: Color,
    l2: Seq<char>, v2: u32, c2: Color,
    l3: Seq<char>, v3: u32, c3: Color,
) -> Seq<(Seq<char>, Style)> {
    seq![
        ("║  "@, spec_plain_style()),
        (l1, spec_color(Color::White)),
        (left_aligned(decimal(v1 as nat), 4), spec_color(c1)),
        ("    "@, spec_plain_style()),
        (l2, spec_color(Color::White)),
        (left_aligned(decimal(v2 as nat), 4), spec_color(c2)),
        ("    "@, spec_plain_style()),
        (l3, spec_color(Color::White)),
        (left_aligned(decimal(v3 as nat), 4), spec_color(c3)),
        ("  ║\n"@, spec_plain_style()),
    ]
}

/// One row of two amounts on the score screen.
pub open spec fn wealth_row(l1: Seq<char>, v1: u64, c1: Color, l2: Seq<char>, v2: u64, c2: Color) -> Seq<(Seq<char>, Style)> {
    seq![
        ("║  "@, spec_plain_style()),
        (l1, spec_color(Color::White)),
        (left_aligned(decimal(v1 as nat), 12), spec_color(c1)),
        (" "@, spec_plain_style()),
        (l2, spec_color(Color::White)),
        (" "@, spec_plain_style()),
        (left_aligned(decimal(v2 as nat), 10), spec_color(c2)),
        ("  ║\n"@, spec_plain_style()),
    ]
}

/// A bar row of the score screen.
pub open spec fn bar_row(label: Seq<char>, current: u32, max: u32, c: Color) -> Seq<(Seq<char>, Style)> {
    one("║  "@, spec_plain_style()) + bar_msgs(label, current, max, c, 20) + one("  ║\n"@, spec_plain_style())
}

/// The score screen of a player.
pub open spec fn score_msgs(p: Player) -> Seq<(Seq<char>, Style)> {
    score_rule("╔"@, double_rule(), "╗"@)
    + seq![
        ("║ "@, spec_plain_style()),
        ("姓名："@, spec_color(Color::White)),
        (p.name@, spec_color_bold(Color::Green)),
        (" "@, spec_plain_style()),
        ("境界："@, spec_color(Color::White)),
        (score_realm(p.realm_level, p.realm_sub_level), spec_color_bold(Color::Rgb(163, 53, 238))),
        (" "@, spec_plain_style()),
        ("年龄："@, spec_color(Color::White)),
        (decimal(p.age as nat), spec_color(Color::Cyan)),
        ("/"@, spec_color(Color::White)),
        (decimal(p.lifespan as nat), spec_color(Color::Cyan)),
        ("\n"@, spec_plain_style()),
    ]
    + score_rule("╟"@, single_rule(), "╢"@)
    + bar_row("生命"@, p.hp, p.hp_max, Color::Rgb(196, 31, 59))
    + bar_row("真元"@, p.qi, p.qi_max, Color::Rgb(105, 204, 240))
    + bar_row("体力"@, p.stamina, p.stamina_max, Color::Rgb(255, 245, 105))
    + score_rule("╟"@, single_rule(), "╢"@)
    + stat_row("力量: "@, p.stats.str, Color::Rgb(255, 128, 0), "身法: "@, p.stats.dex, Color::Green, "悟性: "@, p.stats.int, Color::Cyan)
    + stat_row("根骨: "@, p.stats.con, Color::Rgb(163, 53, 238), "福缘: "@, p.stats.luk, Color::Yellow, "攻击: "@, p.atk, Color::Rgb(196, 31, 59))
    + score_rule("╟"@, single_rule(), "╢"@)
    + wealth_row("修为: "@, p.exp, Color::Green, "潜能: "@, p.potential, Color::Yellow)
    + wealth_row("灵晶: "@, p.wallet.crystal, Color::Rgb(163, 53, 238), "灵贝: "@, p.wallet.shell, Color::Cyan)
    + score_rule("╚"@, double_rule(), "╝"@)
}

impl Player {
    /// Whether the player holds the `pseudo` spirit root.
    pub open spec fn is_pseudo(&self) -> bool {
        self.root_id@ == "pseudo"@
    }

    /// A new player with the common spirit root.
    pub fn new(id: u64, name: String) -> (p: Player)
        ensures
            p.id == id,
            p.name@ == name@,
            p.root_id@ == "凡根"@,
            p.fresh(),
    {
        Self::new_character(id, name, "凡根".to_string())
    }

    /// The state of a character as it is created: 16 in every attribute,
    /// 100 shells, the first sub-level of the first realm, and full vitals.
    pub open spec fn fresh(&self) -> bool {
        &&& self.nick is None
        &&& self.gender@ == "未知"@
        &&& self.sect is None
        &&& self.stats == (BaseStats { str: 16, dex: 16, int: 16, con: 16, luk: 16 })
        &&& self.wallet == (Wallet { crystal: 0, shell: 100 })
        &&& self.realm_level == 1
        &&& self.realm_sub_level == 1
        &&& self.exp == 0
        &&& self.potential == 0
        &&& self.age == 16
        &&& self.lifespan == 100
        &&& self.hp_max == 190
        &&& self.hp == 190
        &&& self.atk == 2
        &&& self.qi_max == spec_qi_max(self.stats, self.is_pseudo())
        &&& self.qi == self.qi_max
        &&& self.stamina_max == 100
        &&& self.stamina == 100
        &&& !self.is_resting
        &&& self.last_input_time == 0
        &&& self.aliases@.len() == 0
        &&& self.active_quests@.len() == 0
        &&& self.completed_quests@.len() == 0
        &&& self.quest_counts@.len() == 0
        &&& self.inventory@.len() == 0
        &&& self.combat_state is None
        &&& self.default_skill_id@ == "sword_1"@
    }

    /// A new character with the given spirit root.
    pub fn new_character(id: u64, name: String, root_id: String) -> (p: Player)
        ensures
            p.id == id,
            p.name@ == name@,
            p.root_id@ == root_id@,
            p.fresh(),
    {
        let mut player = Player {
            id,
            name,
            nick: None,
            gender: "未知".to_string(),
            sect: None,
            root_id,
            stats: BaseStats { str: 16, dex: 16, int: 16, con: 16, luk: 16 },
            wallet: Wallet { crystal: 0, shell: 100 },
            realm_level: 1,
            realm_sub_level: 1,
            exp: 0,
            potential: 0,
            age: 16,
            lifespan: 100,
            hp: 0,
            hp_max: 0,
            atk: 0,
            qi: 0,
            qi_max: 0,
            stamina: 100,
            stamina_max: 100,
            is_resting: false,
            last_input_time: 0,
            aliases: Vec::new(),
            active_quests: Vec::new(),
            completed_quests: Vec::new(),
            quest_counts: Vec::new(),
            inventory: Vec::new(),
            combat_state: None,
            default_skill_id: "sword_1".to_string(),
        };
        player.update_vitals();
        player.hp = player.hp_max;
        player.qi = player.qi_max;
        player.stamina = player.stamina_max;
        player
    }

    /// Recomputes the maximum vitals and attack from the attributes and the
    /// sub-level, and cuts the current vitals down to their maximums.
    pub fn update_vitals(&mut self)
        requires
            vitals_fit(old(self).stats, old(self).realm_sub_level),
        ensures
            final(self).hp_max == spec_hp_max(old(self).stats.con, old(self).realm_sub_level),
            final(self).atk == 2 * old(self).realm_sub_level,
            final(self).qi_max == spec_qi_max(old(self).stats, old(self).is_pseudo()),
            final(self).stamina_max == 100,
            final(self).hp == min_int(old(self).hp as int, final(self).hp_max as int),
            final(self).qi == min_int(old(self).qi as int, final(self).qi_max as int),
            final(self).stamina == min_int(old(self).stamina as int, 100),
            *final(self) == (Player {
                hp_max: final(self).hp_max,
                atk: final(self).atk,
                qi_max: final(self).qi_max,
                stamina_max: final(self).stamina_max,
                hp: final(self).hp,
                qi: final(self).qi,
                stamina: final(self).stamina,
                ..*old(self)
            }),
    {
        self.hp_max = self.stats.con * 10 + (self.realm_sub_level as u32 * 30);
        self.atk = 2 * self.realm_sub_level as u32;
        let mut max_qi = (self.stats.con + self.stats.int) * 5;
        if same_text(self.root_id.as_str(), "pseudo") {
            let raised: u64 = max_qi as u64 + (max_qi / 2) as u64;
            max_qi = if raised > u32::MAX as u64 { u32::MAX } else { raised as u32 };
        }
        self.qi_max = max_qi;
        self.stamina_max = 100;
        if self.hp > self.hp_max {
            self.hp = self.hp_max;
        }
        if self.qi > self.qi_max {
            self.qi = self.qi_max;
        }
        if self.stamina > self.stamina_max {
            self.stamina = self.stamina_max;
        }
    }

    /// Whether the player has at least `amount` stamina.
    pub fn is_stamina_enough(&self, amount: u32) -> (r: bool)
        ensures
            r == (self.stamina >= amount),
    {
        self.stamina >= amount
    }

    /// Spends `amount` stamina if the player has that much; says whether it did.
    pub fn consume_stamina(&mut self, amount: u32) -> (r: bool)
        ensures
            r == (old(self).stamina >= amount),
            r ==> *final(self) == (Player { stamina: (old(self).stamina - amount) as u32, ..*old(self) }),
            !r ==> *final(self) == *old(self),
    {
        if self.is_stamina_enough(amount) {
            self.stamina = self.stamina - amount;
            true
        } else {
            false
        }
    }

    /// The stamina regained at one heartbeat: `5 + con / 10`, doubled while
    /// resting.
    pub open spec fn recovery(&self) -> int {
        if self.is_resting { 2 * (5 + self.stats.con / 10) } else { 5 + self.stats.con / 10 }
    }

    /// Regains stamina at a heartbeat, up to the maximum.
    pub fn on_heartbeat_recovery(&mut self)
        requires
            old(self).stamina + old(self).recovery() <= u32::MAX,
        ensures
            *final(self) == (Player {
                stamina: min_int(old(self).stamina + old(self).recovery(), old(self).stamina_max as int) as u32,
                ..*old(self)
            }),
            *final(self) == crate::lifecycle::recovered(*old(self)),
    {
        let mut recovery = 5 + (self.stats.con / 10);
        if self.is_resting {
            recovery = recovery * 2;
        }
        let total = self.stamina + recovery;
        self.stamina = if total < self.stamina_max { total } else { self.stamina_max };
    }

    /// Adds money to the wallet.
    pub fn add_money(&mut self, crystal: u64, shell: u64)
        requires
            old(self).wallet.crystal + crystal <= u64::MAX,
            old(self).wallet.shell + shell <= u64::MAX,
        ensures
            *final(self) == (Player {
                wallet: Wallet {
                    crystal: (old(self).wallet.crystal + crystal) as u64,
                    shell: (old(self).wallet.shell + shell) as u64,
                },
                ..*old(self)
            }),
    {
        self.wallet.crystal = self.wallet.crystal + crystal;
        self.wallet.shell = self.wallet.shell + shell;
    }

    /// Pays from the wallet if both amounts are there; says whether it did.
    pub fn spend_money(&mut self, crystal: u64, shell: u64) -> (r: bool)
        ensures
            r == (old(self).wallet.crystal >= crystal && old(self).wallet.shell >= shell),
            r ==> *final(self) == (Player {
                wallet: Wallet {
                    crystal: (old(self).wallet.crystal - crystal) as u64,
                    shell: (old(self).wallet.shell - shell) as u64,
                },
                ..*old(self)
            }),
            !r ==> *final(self) == *old(self),
    {
        if self.wallet.crystal >= crystal && self.wallet.shell >= shell {
            self.wallet.crystal = self.wallet.crystal - crystal;
            self.wallet.shell = self.wallet.shell - shell;
            true
        } else {
            false
        }
    }

    /// Adds experience and breaks through sub-levels (up to the ninth) while
    /// there is enough: leaving sub-level `n` costs `100 * n^2`. Each
    /// breakthrough recomputes the vitals and is announced.
    pub fn add_exp(&mut self, amount: u64) -> (out: Text)
        requires
            exp_fits(*old(self), amount as int),
        ensures
            *final(self) == after_exp(*old(self), amount as int),
            out@ == exp_msgs(*old(self), amount as int),
    {
        let ghost p0 = *self;
        let ghost t = leveled(p0.realm_sub_level as int, p0.exp + amount);
        proof {
            lemma_leveled_bounds(p0.realm_sub_level as int, p0.exp + amount);
        }
        self.exp = self.exp + amount;
        let mut out = Text::new();
        let mut going = true;
        while going && self.realm_sub_level < 9
            invariant
                exp_fits(p0, amount as int),
                t == leveled(p0.realm_sub_level as int, p0.exp + amount),
                t.0 >= p0.realm_sub_level,
                p0.realm_sub_level <= 9 ==> t.0 <= 9,
                p0.realm_sub_level > 9 ==> t.0 == p0.realm_sub_level,
                leveled(self.realm_sub_level as int, self.exp as int) == t,
                p0.realm_sub_level <= self.realm_sub_level <= t.0,
                !going ==> self.realm_sub_level == t.0 && self.exp == t.1,
                self.realm_sub_level > p0.realm_sub_level ==> *self == (Player {
                    realm_sub_level: self.realm_sub_level,
                    exp: self.exp,
                    hp_max: spec_hp_max(p0.stats.con, self.realm_sub_level) as u32,
                    atk: (2 * self.realm_sub_level) as u32,
                    qi_max: spec_qi_max(p0.stats, p0.is_pseudo()) as u32,
                    stamina_max: 100,
                    hp: min_int(p0.hp as int, spec_hp_max(p0.stats.con, (p0.realm_sub_level + 1) as u16)) as u32,
                    qi: min_int(p0.qi as int, spec_qi_max(p0.stats, p0.is_pseudo())) as u32,
                    stamina: min_int(p0.stamina as int, 100) as u32,
                    ..p0
                }),
                self.realm_sub_level == p0.realm_sub_level ==> *self == (Player { exp: self.exp, ..p0 }),
                out@ == breakthrough_msgs(p0.realm_sub_level as int, self.realm_sub_level as int),
            decreases 9 - self.realm_sub_level, if going { 1int } else { 0int },
        {
            let sub = self.realm_sub_level as u64;
            assert(100 * sub * sub <= 6400 && 100 * sub <= 900) by (nonlinear_arith) requires sub < 9;
            let need: u64 = 100 * sub * sub;
            assert(need == exp_needed(sub as int));
            if self.exp >= need {
                self.exp = self.exp - need;
                self.realm_sub_level = self.realm_sub_level + 1;
                proof {
                    assert(spec_hp_max(self.stats.con, self.realm_sub_level) <= spec_hp_max(self.stats.con, 9));
                }
                proof {
                    lemma_leveled_bounds(self.realm_sub_level as int, self.exp as int);
                }
                self.update_vitals();
                out.push_plain("\n");
                let line = breakthrough_text(self.realm_sub_level);
                out.push_string(line, color_bold(Color::Green));
            } else {
                going = false;
            }
        }
        proof {
            if going {
                assert(self.realm_sub_level >= 9);
            }
        }
        let notice = self.check_promotion();
        out.append(notice);
        out
    }

    /// The bottleneck notice, at the ninth sub-level of the first realm with
    /// 8100 experience or more.
    pub fn check_promotion(&self) -> (out: Text)
        ensures
            out@ == promotion_msg(self.realm_level, self.realm_sub_level, self.exp),
    {
        let mut out = Text::new();
        if self.realm_level == 1 && self.realm_sub_level == 9 {
            let need_exp: u64 = 8100;
            if self.exp >= need_exp {
                out.push_plain("\n");
                out.push("你感到修为已达凡界瓶颈，需寻得筑基丹方可尝试突破筑基期。", color_bold(Color::Yellow));
            }
        }
        out
    }

    /// Takes a quest, unless it is finished or already taken; says whether it did.
    pub fn accept_quest(&mut self, quest: &Quest) -> (r: bool)
        ensures
            r == !(list_has(old(self).completed_quests@, quest.id@) || has_active_quest(
                old(self).active_quests@,
                quest.id@,
            )),
            r ==> final(self).active_quests@.len() == old(self).active_quests@.len() + 1
                && final(self).active_quests@.take(old(self).active_quests@.len() as int) == old(self).active_quests@
                && final(self).active_quests@.last()@ == (QuestStatusView {
                    quest_id: quest.id@,
                    current_step: 0,
                    is_completed: false,
                    kill_counts: seq![],
                })
                && *final(self) == (Player { active_quests: final(self).active_quests, ..*old(self) }),
            !r ==> *final(self) == *old(self),
    {
        if contains_text(&self.completed_quests, quest.id.as_str()) || self.has_quest(quest.id.as_str()) {
            return false;
        }
        let ghost before = self.active_quests@;
        let st = PlayerQuestStatus {
            quest_id: quest.id.clone(),
            current_step: 0,
            is_completed: false,
            kill_counts: Vec::new(),
        };
        self.active_quests.push(st);
        proof {
            assert(self.active_quests@.take(before.len() as int) =~= before);
            assert(counts_view(self.active_quests@.last().kill_counts@) =~= seq![]);
        }
        true
    }

    /// Whether one of the active quests is `id`.
    pub fn has_quest(&self, id: &str) -> (r: bool)
        ensures
            r == has_active_quest(self.active_quests@, id@),
    {
        let mut i: usize = 0;
        while i < self.active_quests.len()
            invariant
                i <= self.active_quests.len(),
                forall|j: int| 0 <= j < i ==> self.active_quests@[j].quest_id@ != id@,
            decreases self.active_quests.len() - i,
        {
            if same_text(self.active_quests[i].quest_id.as_str(), id) {
                return true;
            }
            i = i + 1;
        }
        false
    }

    /// Counts a kill of the monster with prototype id `monster_id` for every
    /// active kill quest that targets it, marks the quests whose goal is
    /// reached, and reports the progress.
    pub fn on_kill(&mut self, monster_id: &str, quest_registry: &Registry<Quest>) -> (out: Text)
        requires
            kills_fit(status_views(old(self).active_quests@), *quest_registry, monster_id@),
        ensures
            status_views(final(self).active_quests@) == statuses_after_kill(
                status_views(old(self).active_quests@),
                *quest_registry,
                monster_id@,
            ),
            *final(self) == (Player { active_quests: final(self).active_quests, ..*old(self) }),
            out@ == all_kill_msgs(status_views(old(self).active_quests@), *quest_registry, monster_id@),
    {
        let ghost p0 = *self;
        let ghost old_views = status_views(self.active_quests@);
        let mut out = Text::new();
        let mut i: usize = 0;
        while i < self.active_quests.len()
            invariant
                self.active_quests.len() == old_views.len(),
                i <= self.active_quests.len(),
                old_views == status_views(p0.active_quests@),
                kills_fit(old_views, *quest_registry, monster_id@),
                forall|j: int| 0 <= j < i ==> #[trigger] self.active_quests@[j]@ == status_after_kill(
                    old_views[j],
                    quest_registry.lookup(old_views[j].quest_id),
                    monster_id@,
                ),
                forall|j: int| i <= j < self.active_quests.len() ==> #[trigger] self.active_quests@[j] == p0.active_quests@[j],
                *self == (Player { active_quests: self.active_quests, ..p0 }),
                out@ == all_kill_msgs(old_views.take(i as int), *quest_registry, monster_id@),
            decreases self.active_quests.len() - i,
        {
            proof {
                assert(old_views.take(i + 1).drop_last() =~= old_views.take(i as int));
                assert(old_views[i as int] == self.active_quests@[i as int]@);
            }
            let found = quest_registry.get(self.active_quests[i].quest_id.as_str());
            match found {
                Some(quest) => {
                    if same_text(quest.quest_type.as_str(), "kill") && same_text(quest.target_id.as_str(), monster_id) {
                        let st = &mut self.active_quests[i];
                        record_kill(st, quest, monster_id, &mut out);
                    }
                },
                None => {},
            }
            i = i + 1;
        }
        proof {
            assert(old_views.take(i as int) =~= old_views);
            assert(status_views(self.active_quests@) =~= statuses_after_kill(old_views, *quest_registry, monster_id@));
        }
        out
    }

    /// Gives a quest reward: shells, potential and experience (which may
    /// bring breakthroughs), and the notice that lists them.
    pub fn grant_reward(&mut self, rewards: &QuestRewards) -> (out: Text)
        requires
            reward_fits(*old(self), *rewards),
        ensures
            *final(self) == after_reward(*old(self), *rewards),
            out@ == reward_msgs(*rewards, match rewards.exp {
                Some(n) => exp_msgs(after_money(*old(self), *rewards), n as int),
                None => seq![],
            }),
    {
        let mut out = Text::new();
        out.push("--------------------------------------", color_bold(Color::Yellow));
        out.push_plain("\n");
        out.push("[ 任务圆满完成！ ]", color_bold(Color::Green));
        out.push_plain("\n");
        out.push("--------------------------------------", color_bold(Color::Yellow));
        out.push_plain("\n");
        out.push("获得奖励：", color_bold(Color::White));
        out.push_plain("\n");
        let ghost head = out@;
        if let Some(shell) = rewards.shell {
            self.wallet.shell = self.wallet.shell + shell;
            reward_line_text(&mut out, "● 灵贝:", shell, Text::new());
        }
        let ghost with_shell = out@;
        if let Some(potential) = rewards.potential {
            self.potential = self.potential + potential;
            reward_line_text(&mut out, "● 潜能:", potential, Text::new());
        }
        let ghost with_potential = out@;
        proof {
            assert(*self == after_money(*old(self), *rewards));
        }
        if let Some(exp) = rewards.exp {
            let level_up_msg = self.add_exp(exp);
            reward_line_text(&mut out, "● 修为:", exp, level_up_msg);
        }
        out.push("--------------------------------------", color_bold(Color::Yellow));
        proof {
            let lvl = match rewards.exp {
                Some(n) => exp_msgs(after_money(*old(self), *rewards), n as int),
                None => seq![],
            };
            let shell_part: Seq<(Seq<char>, Style)> = match rewards.shell { Some(n) => reward_line("● 灵贝:"@, n, seq![]), None => seq![] };
            let pot_part: Seq<(Seq<char>, Style)> = match rewards.potential { Some(n) => reward_line("● 潜能:"@, n, seq![]), None => seq![] };
            let exp_part: Seq<(Seq<char>, Style)> = match rewards.exp { Some(n) => reward_line("● 修为:"@, n, lvl), None => seq![] };
            assert(with_shell =~= head + shell_part);
            assert(with_potential =~= head + shell_part + pot_part);
            assert(out@ =~= reward_msgs(*rewards, lvl));
        }
        out
    }

    /// A vitals bar of `width` cells: the label, the filled cells in the
    /// bar's colour, the empty cells in grey, and `current/max`.
    pub fn draw_bar(label: &str, current: u32, max: u32, c: Color, width: usize) -> (out: Text)
        requires
            width <= 1000,
        ensures
            out@ == bar_msgs(label@, current, max, c, width as nat),
    {
        let fill_width: usize = if max > 0 {
            let cw: u64 = current as u64;
            let ww: u64 = width as u64;
            assert(cw * ww <= 4294967295 * 1000) by (nonlinear_arith)
                requires cw <= 4294967295, ww <= 1000;
            let r: u64 = (2 * (cw * ww) + max as u64) / (2 * max as u64);
            assert(2 * (cw * ww) == 2 * current * width) by (nonlinear_arith)
                requires cw == current, ww == width;
            if r > width as u64 { width } else { r as usize }
        } else {
            0
        };
        let mut out = Text::new();
        out.push_string(left_align(label, 5), color(Color::White));
        out.push_plain(" ");
        out.push_string(repeat_text("█", fill_width), color(c));
        out.push_string(repeat_text("░", width - fill_width), color(Color::Rgb(50, 50, 50)));
        let mut nums = " ".to_string();
        nums.append(right_align(u64_text(current as u64).as_str(), 4).as_str());
        nums.append("/");
        nums.append(left_align(u64_text(max as u64).as_str(), 4).as_str());
        out.push_string(nums, plain_style());
        assert(fill_width == fill_cells(current as int, max as int, width as int));
        assert(out@ =~= bar_msgs(label@, current, max, c, width as nat));
        out
    }

    /// The score screen: name, realm and age; health, qi and stamina bars;
    /// the attributes; experience, potential and money.
    pub fn get_score_string(&self, _config: &WorldConfig) -> (out: Text)
        ensures
            out@ == score_msgs(*self),
    {
        let mut out = Text::new();
        push_rule(&mut out, "╔", "═", "╗");
        let ghost a = out@;
        out.push_plain("║ ");
        out.push("姓名：", color(Color::White));
        out.push(self.name.as_str(), color_bold(Color::Green));
        out.push_plain(" ");
        out.push("境界：", color(Color::White));
        let mut realm = String::new();
        if self.realm_level == 1 {
            realm.append("炼气");
            realm.append(cn_digit_text(self.realm_sub_level));
            realm.append("层");
        } else {
            realm.append("未知");
        }
        out.push_string(realm, color_bold(Color::Rgb(163, 53, 238)));
        out.push_plain(" ");
        out.push("年龄：", color(Color::White));
        out.push_string(u64_text(self.age as u64), color(Color::Cyan));
        out.push("/", color(Color::White));
        out.push_string(u64_text(self.lifespan as u64), color(Color::Cyan));
        out.push_plain("\n");
        let ghost b = out@;
        push_rule(&mut out, "╟", "─", "╢");
        push_bar_row(&mut out, "生命", self.hp, self.hp_max, Color::Rgb(196, 31, 59));
        push_bar_row(&mut out, "真元", self.qi, self.qi_max, Color::Rgb(105, 204, 240));
        push_bar_row(&mut out, "体力", self.stamina, self.stamina_max, Color::Rgb(255, 245, 105));
        push_rule(&mut out, "╟", "─", "╢");
        push_stat_row(&mut out, "力量: ", self.stats.str, Color::Rgb(255, 128, 0), "身法: ", self.stats.dex, Color::Green, "悟性: ", self.stats.int, Color::Cyan);
        push_stat_row(&mut out, "根骨: ", self.stats.con, Color::Rgb(163, 53, 238), "福缘: ", self.stats.luk, Color::Yellow, "攻击: ", self.atk, Color::Rgb(196, 31, 59));
        push_rule(&mut out, "╟", "─", "╢");
        push_wealth_row(&mut out, "修为: ", self.exp, Color::Green, "潜能: ", self.potential, Color::Yellow);
        push_wealth_row(&mut out, "灵晶: ", self.wallet.crystal, Color::Rgb(163, 53, 238), "灵贝: ", self.wallet.shell, Color::Cyan);
        push_rule(&mut out, "╚", "═", "╝");
        proof {
            assert(b.skip(a.len() as int) =~= seq![
                ("║ "@, spec_plain_style()),
                ("姓名："@, spec_color(Color::White)),
                (self.name@, spec_color_bold(Color::Green)),
                (" "@, spec_plain_style()),
                ("境界："@, spec_color(Color::White)),
                (score_realm(self.realm_level, self.realm_sub_level), spec_color_bold(Color::Rgb(163, 53, 238))),
                (" "@, spec_plain_style()),
                ("年龄："@, spec_color(Color::White)),
                (decimal(self.age as nat), spec_color(Color::Cyan)),
                ("/"@, spec_color(Color::White)),
                (decimal(self.lifespan as nat), spec_color(Color::Cyan)),
                ("\n"@, spec_plain_style()),
            ]);
            assert(out@ =~= score_msgs(*self));
        }
        out
    }
}

/// The announcement of a breakthrough to sub-level `l`.
pub fn breakthrough_text(l: u16) -> (r: String)
    ensures
        r@ == breakthrough_line(l as int),
{
    let mut r = "【突破】你周身灵气激荡，顺利晋升至[炼气第".to_string();
    let n = u64_text(l as u64);
    r.append(n.as_str());
    r.append("层]！");
    r
}

/// Appends one line of a reward notice.
fn reward_line_text(out: &mut Text, label: &str, amount: u64, tail: Text)
    ensures
        final(out)@ == old(out)@ + reward_line(label@, amount, tail@),
{
    let ghost start = out@;
    out.push(label, color(Color::Cyan));
    out.push_plain(" ");
    out.push("+", color_bold(Color::Green));
    out.push_plain(" ");
    out.push_string(u64_text(amount), color_bold(Color::Green));
    let ghost t = tail@;
    out.append(tail);
    out.push_plain("\n");
    assert(out@ =~= start + reward_line(label@, amount, t));
}

/// The value of the counter named `key` (0 when there is none).
pub fn counter_value(counts: &Vec<(String, u32)>, key: &str) -> (c: u32)
    ensures
        c == counter_of(counts_view(counts@), key@),
{
    let ghost v0 = counts_view(counts@);
    proof { lemma_counter_index(v0, key@); }
    let mut i: usize = 0;
    while i < counts.len()
        invariant
            i <= counts.len(),
            v0 == counts_view(counts@),
            forall|j: int| 0 <= j < i ==> v0[j].0 != key@,
        decreases counts.len() - i,
    {
        if same_text(counts[i].0.as_str(), key) {
            proof {
                assert(v0[i as int].0 == key@);
                lemma_counter_index(v0, key@);
                assert(counter_index(v0, key@) == i);
            }
            return counts[i].1;
        }
        i = i + 1;
    }
    proof {
        if counter_index(v0, key@) >= 0 {
            assert(v0[counter_index(v0, key@)].0 == key@);
        }
    }
    0
}

/// Raises the counter named `key` by one (creating it at 1) and returns its new value.
pub(crate) fn bump_counter(counts: &mut Vec<(String, u32)>, key: &str) -> (c: u32)
    requires
        counter_of(counts_view(old(counts)@), key@) < u32::MAX,
    ensures
        counts_view(final(counts)@) == counter_bumped(counts_view(old(counts)@), key@),
        c == counter_of(counts_view(old(counts)@), key@) + 1,
{
    let ghost v0 = counts_view(counts@);
    proof { lemma_counter_index(v0, key@); }
    let mut i: usize = 0;
    while i < counts.len()
        invariant
            i <= counts.len(),
            counts_view(counts@) == v0,
            v0 == counts_view(old(counts)@),
            counter_of(v0, key@) < u32::MAX,
            forall|j: int| 0 <= j < i ==> v0[j].0 != key@,
        decreases counts.len() - i,
    {
        if same_text(counts[i].0.as_str(), key) {
            proof {
                assert(v0[i as int].0 == key@);
                lemma_counter_index(v0, key@);
                assert(counter_index(v0, key@) == i);
            }
            let k = counts[i].0.clone();
            let c = counts[i].1 + 1;
            counts.set(i, (k, c));
            proof {
                assert(counts_view(counts@) =~= counter_bumped(v0, key@));
                assert(c == counter_of(v0, key@) + 1);
            }
            return c;
        }
        i = i + 1;
    }
    proof {
        lemma_counter_index(v0, key@);
        if counter_index(v0, key@) >= 0 {
            assert(v0[counter_index(v0, key@)].0 == key@);
        }
    }
    counts.push((key.to_string(), 1));
    assert(counts_view(counts@) =~= counter_bumped(v0, key@));
    1
}

/// Counts a kill for one quest status and reports the progress.
fn record_kill(st: &mut PlayerQuestStatus, quest: &Quest, monster_id: &str, out: &mut Text)
    requires
        counts_kills_of(Some(*quest), monster_id@),
        counter_of(old(st)@.kill_counts, monster_id@) < u32::MAX,
    ensures
        final(st)@ == status_after_kill(old(st)@, Some(*quest), monster_id@),
        final(out)@ == old(out)@ + kill_msgs(old(st)@, Some(*quest), monster_id@),
{
    let ghost out0 = out@;
    let count = bump_counter(&mut st.kill_counts, monster_id);
    let target: u32 = match quest.target_count {
        Some(n) => n,
        None => 1,
    };
    out.push_plain("\n");
    let mut line = "[任务进度] ".to_string();
    line.append(quest.name.as_str());
    line.append(": ");
    line.append(u64_text(count as u64).as_str());
    line.append("/");
    line.append(u64_text(target as u64).as_str());
    out.push_string(line, color_bold(Color::Green));
    if count >= target {
        st.is_completed = true;
        out.push_plain("\n");
        let mut done = "你已达成任务“".to_string();
        done.append(quest.name.as_str());
        done.append("”的目标！");
        out.push_string(done, color_bold(Color::Yellow));
    }
    proof {
        assert(out@ =~= out0 + kill_msgs(old(st)@, Some(*quest), monster_id@));
    }
}

/// Appends a rule of 46 `mid` characters between two corners.
fn push_rule(out: &mut Text, left: &str, mid: &str, right: &str)
    ensures
        final(out)@ == old(out)@ + score_rule(left@, repeated(mid@, 46), right@),
{
    out.push_plain(left);
    out.push_string(repeat_text(mid, 46), color(Color::Rgb(100, 100, 100)));
    let mut end = right.to_string();
    end.append("\n");
    out.push_string(end, plain_style());
    assert(final(out)@ =~= old(out)@ + score_rule(left@, repeated(mid@, 46), right@));
}

/// Appends a bar row of the score screen.
fn push_bar_row(out: &mut Text, label: &str, current: u32, max: u32, c: Color)
    ensures
        final(out)@ == old(out)@ + bar_row(label@, current, max, c),
{
    out.push_plain("║  ");
    let bar = Player::draw_bar(label, current, max, c, 20);
    let ghost bv = bar@;
    out.append(bar);
    out.push_plain("  ║\n");
    assert(final(out)@ =~= old(out)@ + bar_row(label@, current, max, c));
}

/// Appends a row of three attributes.
fn push_stat_row(
    out: &mut Text,
    l1: &str, v1: u32, c1: Color,
    l2: &str, v2: u32, c2: Color,
    l3: &str, v3: u32, c3: Color,
)
    ensures
        final(out)@ == old(out)@ + stat_row(l1@, v1, c1, l2@, v2, c2, l3@, v3, c3),
{
    out.push_plain("║  ");
    out.push(l1, color(Color::White));
    out.push_string(left_align(u64_text(v1 as u64).as_str(), 4), color(c1));
    out.push_plain("    ");
    out.push(l2, color(Color::White));
    out.push_string(left_align(u64_text(v2 as u64).as_str(), 4), color(c2));
    out.push_plain("    ");
    out.push(l3, color(Color::White));
    out.push_string(left_align(u64_text(v3 as u64).as_str(), 4), color(c3));
    out.push_plain("  ║\n");
    assert(final(out)@ =~= old(out)@ + stat_row(l1@, v1, c1, l2@, v2, c2, l3@, v3, c3));
}

/// Appends a row of two amounts.
fn push_wealth_row(out: &mut Text, l1: &str, v1: u64, c1: Color, l2: &str, v2: u64, c2: Color)
    ensures
        final(out)@ == old(out)@ + wealth_row(l1@, v1, c1, l2@, v2, c2),
{
    out.push_plain("║  ");
    out.push(l1, color(Color::White));
    out.push_string(left_align(u64_text(v1).as_str(), 12), color(c1));
    out.push_plain(" ");
    out.push(l2, color(Color::White));
    out.push_plain(" ");
    out.push_string(left_align(u64_text(v2).as_str(), 10), color(c2));
    out.push_plain("  ║\n");
    assert(final(out)@ =~= old(out)@ + wealth_row(l1@, v1, c1, l2@, v2, c2));
}

} // verus!
