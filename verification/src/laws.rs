//! Properties that hold across the operations of the game: what a read
//! gives back of a write, what one call undoes of another, and what every
//! operation keeps.

use vstd::prelude::*;
use crate::combat::{CombatResultView, CombatStats, after_defense, attack_outcome, attack_fits, u32_as_i32, hit_chance, blow_name};
use crate::combat_ticks::{entity_update, round_fits, tick_updates, TickUpdateView, CombatEntity};
use crate::lifecycle::recovered;
use crate::combat::{skill_damage, heal_amount};
use crate::command::direction_name;
use crate::world::world_player::{QuestStatusView, status_views, statuses_after_kill, counter_of, counter_index,
    lemma_counter_index};
use crate::world_model::Quest;
use crate::world::world_player::kill_msgs;
use crate::styled::{decimal, digit_char};
use crate::ui::{insert_ranked, ranked, ranks_below, row_rank, WhoRowView, realm_name, realm_of_name, sub_of_name,
    lemma_realm_name_round_trip};
use crate::world::world_loader::{all_digits, digits_value, parsed_u32, parsed_unsigned, unsigned_body};
use crate::world::world_player::{has_active_quest, min_int, Player, Wallet};
use crate::world::world_state::{first_position, items_in, loc_of, PlayerLocation, WorldState, respawn_pass, respawn_slots,
    npc_count_in, npcs_in, empty_rooms};
use crate::npc::Npc;
use crate::world_model::{NpcPrototype, Room};
use crate::world_model::{Registry, SkillTemplate};
use crate::styled::list_has;
use crate::command::{is_ws, words_from, split_ws, join_words, parsed, key_of, is_ascii_text, ascii_lowercase,
    ascii_uppercase, lower_char, upper_char, CommandView};

verus! {

/// The position of an item pushed onto a list that did not hold it is the end.
proof fn lemma_first_position_pushed(s: Seq<u32>, x: u32)
    requires
        !s.contains(x),
    ensures
        first_position(s.push(x), x) == s.len(),
    decreases s.len(),
{
    if s.len() > 0 {
        assert(s.push(x).drop_first() =~= s.drop_first().push(x));
        assert(s[0] != x) by { assert(s.contains(s[0])); }
        assert(!s.drop_first().contains(x)) by {
            if s.drop_first().contains(x) {
                let i = choose|i: int| 0 <= i < s.drop_first().len() && s.drop_first()[i] == x;
                assert(s[i + 1] == x);
            }
        }
        lemma_first_position_pushed(s.drop_first(), x);
    }
}

/// An item laid in a room that did not hold it, then taken from it: the
/// taking succeeds and the room holds what it held before. (A room that
/// already held the item keeps it, moved: its first copy is taken.)
pub proof fn law_item_laid_then_taken(before: Seq<u32>, laid: Seq<u32>, taken: Seq<u32>, item: u32)
    requires
        !before.contains(item),
        laid == before.push(item),
        taken == laid.remove(first_position(laid, item)),
    ensures
        laid.contains(item),
        taken == before,
{
    lemma_first_position_pushed(before, item);
    assert(laid[before.len() as int] == item);
    assert(taken =~= before);
}

/// A player moved to a room is found in that room under the name given,
/// and every other player is where it was.
pub proof fn law_moved_player_is_found(
    before: Seq<(u64, PlayerLocation)>,
    after: Seq<(u64, PlayerLocation)>,
    player_id: u64,
    room: Seq<char>,
    name: Option<String>,
    other: u64,
)
    requires
        loc_of(after, player_id) matches Some(l) && l.room_id@ == room && l.user_name == name,
        forall|o: u64| o != player_id ==> loc_of(after, o) == loc_of(before, o),
    ensures
        loc_of(after, player_id) is Some,
        loc_of(after, player_id)->0.room_id@ == room,
        other != player_id ==> loc_of(after, other) == loc_of(before, other),
{
}

/// Money added and then spent in the same amounts: the spending succeeds
/// and the wallet is as it was.
pub proof fn law_money_added_then_spent(p0: Player, p1: Player, p2: Player, crystal: u64, shell: u64, paid: bool)
    requires
        p0.wallet.crystal + crystal <= u64::MAX,
        p0.wallet.shell + shell <= u64::MAX,
        p1 == (Player {
            wallet: Wallet { crystal: (p0.wallet.crystal + crystal) as u64, shell: (p0.wallet.shell + shell) as u64 },
            ..p0
        }),
        paid == (p1.wallet.crystal >= crystal && p1.wallet.shell >= shell),
        paid ==> p2 == (Player {
            wallet: Wallet { crystal: (p1.wallet.crystal - crystal) as u64, shell: (p1.wallet.shell - shell) as u64 },
            ..p1
        }),
        !paid ==> p2 == p1,
    ensures
        paid,
        p2 == p0,
{
    assert(p2.wallet == p0.wallet);
}

/// Spending stamina succeeds exactly when there is enough of it, and then
/// takes exactly that much.
pub proof fn law_stamina_spent_when_enough(p0: Player, p1: Player, amount: u32, spent: bool)
    requires
        spent == (p0.stamina >= amount),
        spent ==> p1 == (Player { stamina: (p0.stamina - amount) as u32, ..p0 }),
        !spent ==> p1 == p0,
    ensures
        spent <==> p0.stamina >= amount,
        p1.stamina + (if spent { amount as int } else { 0 }) == p0.stamina,
{
}

/// A heartbeat never lowers stamina and never raises it above the maximum.
pub proof fn law_recovery_stays_within_maximum(p: Player)
    requires
        p.stamina <= p.stamina_max,
        p.stamina + p.recovery() <= u32::MAX,
    ensures
        p.stamina <= recovered(p).stamina <= p.stamina_max,
{
}

/// A skill can be cast exactly when the qi it costs is at hand.
pub proof fn law_cast_when_qi_covers_cost(skill: SkillTemplate, qi: i32, can_cast: bool, cost: (i32, i32))
    requires
        can_cast == (qi >= u32_as_i32(skill.cost_qi)),
        cost.0 == u32_as_i32(skill.cost_qi),
    ensures
        can_cast <==> qi >= cost.0,
{
}

/// A quest once accepted cannot be accepted again: acceptance asks that
/// the quest be neither done nor under way.
pub proof fn law_quest_accepted_once(p1: Player, quest_id: Seq<char>)
    requires
        exists|i: int| 0 <= i < p1.active_quests@.len() && #[trigger] p1.active_quests@[i]@.quest_id == quest_id,
    ensures
        list_has(p1.completed_quests@, quest_id) || has_active_quest(p1.active_quests@, quest_id),
{
    let i = choose|i: int| 0 <= i < p1.active_quests@.len() && #[trigger] p1.active_quests@[i]@.quest_id == quest_id;
    assert(p1.active_quests@[i].quest_id@ == quest_id);
}

/// A blow always deals at least one point of damage.
pub proof fn law_blow_deals_damage(damage: int, defense: int)
    ensures
        after_defense(damage, defense) >= 1,
{
}

/// A blow whose hit roll lands (at most the hit chance) always hits: it
/// deals at least one point, its log names the blow (the skill, or a plain
/// attack) in its sixth span, and it kills exactly when the damage takes the
/// defender's health to 0 or below. Only a hit roll above the hit chance
/// misses.
pub proof fn law_landed_blow(att: CombatStats, def: CombatStats, skill: Option<SkillTemplate>, h: int, c: int)
    requires
        attack_fits(att, def, skill),
        0 <= h < 100,
        0 <= c < 100,
    ensures
        (attack_outcome(att, def, skill, h, c) is Miss) <==> h > hit_chance(att.level as int, def.level as int),
        match attack_outcome(att, def, skill, h, c) {
            CombatResultView::Hit { damage, log, .. } => damage >= 1 && def.hp - damage > 0
                && log.len() > 5 && log[5].0 == blow_name(skill),
            CombatResultView::TargetKilled { damage, log, .. } => damage >= 1 && def.hp - damage <= 0
                && log.len() > 5 && log[5].0 == blow_name(skill),
            _ => true,
        },
{
}

/// Whether rows run from high rank to low: no row ranks below a later one.
pub open spec fn ranked_high_to_low(s: Seq<WhoRowView>) -> bool {
    forall|i: int, j: int| 0 <= i < j < s.len() ==> !ranks_below(#[trigger] s[i], #[trigger] s[j])
}

/// Putting a row into rows ranked from high to low keeps them so, and adds
/// only that row.
proof fn lemma_insert_keeps_rank(s: Seq<WhoRowView>, x: WhoRowView)
    requires
        ranked_high_to_low(s),
    ensures
        ranked_high_to_low(insert_ranked(s, x)),
        insert_ranked(s, x).len() == s.len() + 1,
        forall|k: int| 0 <= k < insert_ranked(s, x).len() ==> #[trigger] insert_ranked(s, x)[k] == x
            || s.contains(insert_ranked(s, x)[k]),
    decreases s.len(),
{
    if s.len() == 0 {
    } else if ranks_below(s[0], x) {
        let r = seq![x] + s;
        assert(insert_ranked(s, x) == r);
        assert forall|i: int, j: int| 0 <= i < j < r.len() implies !ranks_below(#[trigger] r[i], #[trigger] r[j]) by {
            if i == 0 {
                assert(r[j] == s[j - 1]);
                if j - 1 > 0 {
                    assert(!ranks_below(s[0], s[j - 1]));
                }
            } else {
                assert(r[i] == s[i - 1] && r[j] == s[j - 1]);
            }
        }
        assert forall|k: int| 0 <= k < r.len() implies #[trigger] r[k] == x || s.contains(r[k]) by {
            if k > 0 {
                assert(r[k] == s[k - 1]);
            }
        }
    } else {
        let t = s.drop_first();
        assert forall|i: int, j: int| 0 <= i < j < t.len() implies !ranks_below(#[trigger] t[i], #[trigger] t[j]) by {
            assert(t[i] == s[i + 1] && t[j] == s[j + 1]);
        }
        lemma_insert_keeps_rank(t, x);
        let it = insert_ranked(t, x);
        let r = seq![s[0]] + it;
        assert(insert_ranked(s, x) == r);
        assert forall|i: int, j: int| 0 <= i < j < r.len() implies !ranks_below(#[trigger] r[i], #[trigger] r[j]) by {
            if i == 0 {
                assert(r[j] == it[j - 1]);
                if it[j - 1] != x {
                    assert(t.contains(it[j - 1]));
                    let m = choose|m: int| 0 <= m < t.len() && t[m] == it[j - 1];
                    assert(s[m + 1] == t[m]);
                }
            } else {
                assert(r[i] == it[i - 1] && r[j] == it[j - 1]);
            }
        }
        assert forall|k: int| 0 <= k < r.len() implies #[trigger] r[k] == x || s.contains(r[k]) by {
            if k == 0 {
                assert(s.contains(s[0]));
            } else {
                assert(r[k] == it[k - 1]);
                if it[k - 1] != x {
                    let m = choose|m: int| 0 <= m < t.len() && t[m] == it[k - 1];
                    assert(s[m + 1] == t[m]);
                }
            }
        }
    }
}

/// The who list runs from the highest realm and layer to the lowest.
pub proof fn law_who_list_ranked(rows: Seq<WhoRowView>)
    ensures
        ranked_high_to_low(ranked(rows)),
        ranked(rows).len() == rows.len(),
    decreases rows.len(),
{
    if rows.len() > 0 {
        law_who_list_ranked(rows.drop_last());
        lemma_insert_keeps_rank(ranked(rows.drop_last()), rows.last());
    }
}

/// The decimal writing of a number is digits that spell it, led by a digit.
proof fn lemma_decimal_digits(n: nat)
    ensures
        decimal(n).len() > 0,
        all_digits(decimal(n)),
        digits_value(decimal(n)) == n,
        decimal(n)[0] != '+',
    decreases n,
{
    if n < 10 {
        let s = decimal(n);
        assert(s.drop_last() =~= Seq::<char>::empty());
        assert(digit_char(n) as int - '0' as int == n);
        assert(digits_value(s.drop_last()) == 0);
        assert(digits_value(s) == digits_value(s.drop_last()) * 10 + (s.last() as int - '0' as int));
    } else {
        lemma_decimal_digits(n / 10);
        let s = decimal(n);
        let d = decimal(n / 10);
        assert(s.drop_last() =~= d);
        assert(s.last() == digit_char(n % 10));
        assert(digit_char(n % 10) as int - '0' as int == n % 10);
        assert(digits_value(s) == digits_value(d) * 10 + (s.last() as int - '0' as int));
        assert((n / 10) * 10 + n % 10 == n);
        assert forall|i: int| 0 <= i < s.len() implies '0' <= #[trigger] s[i] <= '9' by {
            if i < d.len() {
                assert(s[i] == d[i]);
            }
        }
        assert(s[0] == d[0]);
    }
}

/// A realm name reads back as the realm and sub-level it was made from for
/// the five named realms; the name of any other realm reads back as realm 0,
/// sub-level 0.
pub proof fn law_realm_name_reads_back(level: u16, sub: u16)
    requires
        1 <= sub <= 9,
    ensures
        1 <= level <= 5 ==> realm_of_name(realm_name(level, sub)) == level && sub_of_name(realm_name(level, sub)) == sub,
        (level == 0 || level > 5) ==> realm_of_name(realm_name(level, sub)) == 0 && sub_of_name(realm_name(level, sub)) == 0,
{
    if 1 <= level <= 5 {
        lemma_realm_name_round_trip(level, sub);
    } else {
        reveal_strlit("境界");
        reveal_strlit("炼气");
        reveal_strlit("筑基");
        reveal_strlit("金丹");
        reveal_strlit("元婴");
        reveal_strlit("化神");
        lemma_decimal_digits(level as nat);
        let d = decimal(level as nat);
        let n = realm_name(level, sub);
        assert(n =~= "境界"@ + d);
        assert(n[0] == '境');
        assert(n.take(2) =~= "境界"@);
        assert forall|i: int| 0 <= i < n.len() implies n[i] == '境' || n[i] == '界' || ('0' <= n[i] <= '9') by {
            if i >= 2 {
                assert(n[i] == d[i - 2]);
            }
        }
        assert(!n.contains('一') && !n.contains('二') && !n.contains('三') && !n.contains('四') && !n.contains('五'));
        assert(!n.contains('六') && !n.contains('七') && !n.contains('八') && !n.contains('九'));
    }
}

/// A word: not empty, and without whitespace.
pub open spec fn is_word(w: Seq<char>) -> bool {
    w.len() > 0 && forall|i: int| 0 <= i < w.len() ==> !is_ws(#[trigger] w[i])
}

/// Reading on through a run of non-whitespace extends the word being read.
proof fn lemma_words_through(w: Seq<char>, rest: Seq<char>, cur: Seq<char>)
    requires
        forall|i: int| 0 <= i < w.len() ==> !is_ws(#[trigger] w[i]),
    ensures
        words_from(w + rest, cur) == words_from(rest, cur + w),
    decreases w.len(),
{
    if w.len() == 0 {
        assert(w + rest =~= rest);
        assert(cur + w =~= cur);
    } else {
        assert((w + rest)[0] == w[0]);
        assert((w + rest).drop_first() =~= w.drop_first() + rest);
        lemma_words_through(w.drop_first(), rest, cur.push(w[0]));
        assert(cur.push(w[0]) + w.drop_first() =~= cur + w);
    }
}

/// The words read from a line are words, when the part already read holds
/// no whitespace.
proof fn lemma_words_are_words(s: Seq<char>, cur: Seq<char>)
    requires
        forall|i: int| 0 <= i < cur.len() ==> !is_ws(#[trigger] cur[i]),
    ensures
        forall|j: int| 0 <= j < words_from(s, cur).len() ==> is_word(#[trigger] words_from(s, cur)[j]),
    decreases s.len(),
{
    if s.len() == 0 {
        if cur.len() > 0 {
            assert(words_from(s, cur) == seq![cur]);
            assert(is_word(cur));
        }
    } else if is_ws(s[0]) {
        lemma_words_are_words(s.drop_first(), seq![]);
        if cur.len() == 0 {
            assert(words_from(s, cur) == words_from(s.drop_first(), seq![]));
        } else {
            assert(words_from(s, cur) == seq![cur] + words_from(s.drop_first(), seq![]));
            let r = words_from(s.drop_first(), seq![]);
            assert forall|j: int| 0 <= j < (seq![cur] + r).len() implies is_word(#[trigger] (seq![cur] + r)[j]) by {
                if j > 0 {
                    assert((seq![cur] + r)[j] == r[j - 1]);
                }
            }
        }
    } else {
        let c2 = cur.push(s[0]);
        assert forall|i: int| 0 <= i < c2.len() implies !is_ws(#[trigger] c2[i]) by {
            if i < cur.len() {
                assert(c2[i] == cur[i]);
            }
        }
        lemma_words_are_words(s.drop_first(), c2);
        assert(words_from(s, cur) == words_from(s.drop_first(), c2));
    }
}

/// Words joined by single spaces, seen from the front.
proof fn lemma_join_front(ws: Seq<Seq<char>>)
    requires
        ws.len() >= 2,
    ensures
        join_words(ws) == ws[0] + seq![' '] + join_words(ws.drop_first()),
    decreases ws.len(),
{
    if ws.len() == 2 {
        assert(ws.drop_last() =~= seq![ws[0]]);
        assert(ws.drop_first() =~= seq![ws[1]]);
        assert(join_words(ws.drop_last()) == ws[0]);
        assert(join_words(ws.drop_first()) == ws[1]);
        assert(join_words(ws) =~= ws[0] + seq![' '] + join_words(ws.drop_first()));
    } else {
        let dl = ws.drop_last();
        let df = ws.drop_first();
        lemma_join_front(dl);
        assert(dl.drop_first() =~= df.drop_last());
        assert(dl[0] == ws[0]);
        assert(df.last() == ws.last());
        assert(join_words(ws) == join_words(dl) + seq![' '] + ws.last());
        assert(join_words(df) == join_words(df.drop_last()) + seq![' '] + df.last());
        assert(join_words(ws) =~= ws[0] + seq![' '] + join_words(ws.drop_first()));
    }
}

/// Splitting words joined by single spaces gives the words back.
proof fn lemma_split_joined(ws: Seq<Seq<char>>)
    requires
        forall|j: int| 0 <= j < ws.len() ==> is_word(#[trigger] ws[j]),
    ensures
        split_ws(join_words(ws)) == ws,
    decreases ws.len(),
{
    if ws.len() == 0 {
        assert(split_ws(join_words(ws)) =~= ws);
    } else if ws.len() == 1 {
        assert(is_word(ws[0]));
        lemma_words_through(ws[0], seq![], seq![]);
        assert(ws[0] + Seq::<char>::empty() =~= ws[0]);
        assert(Seq::<char>::empty() + ws[0] =~= ws[0]);
        assert(split_ws(join_words(ws)) =~= ws);
    } else {
        let t = ws.drop_first();
        assert forall|j: int| 0 <= j < t.len() implies is_word(#[trigger] t[j]) by {
            assert(t[j] == ws[j + 1]);
        }
        lemma_split_joined(t);
        lemma_join_front(ws);
        assert(is_word(ws[0]));
        let rest = seq![' '] + join_words(t);
        assert(ws[0] + seq![' '] + join_words(t) =~= ws[0] + rest);
        lemma_words_through(ws[0], rest, seq![]);
        assert(Seq::<char>::empty() + ws[0] =~= ws[0]);
        assert(rest[0] == ' ');
        assert(is_ws(' '));
        assert(rest.drop_first() =~= join_words(t));
        assert(split_ws(join_words(ws)) =~= seq![ws[0]] + t);
        assert(seq![ws[0]] + t =~= ws);
    }
}

/// Only the words of a line count: splitting the line and joining its words
/// with single spaces gives the same words, so `parse` reads leading,
/// trailing and repeated whitespace as nothing.
pub proof fn law_spacing_ignored(s: Seq<char>)
    ensures
        split_ws(join_words(split_ws(s))) == split_ws(s),
        parsed(join_words(split_ws(s))) == parsed(s),
{
    lemma_words_are_words(s, seq![]);
    lemma_split_joined(split_ws(s));
}

/// Lowering an ASCII text whose small letters were raised gives what
/// lowering the text gives; lowering twice is lowering once.
proof fn lemma_ascii_case(w: Seq<char>)
    requires
        is_ascii_text(w),
    ensures
        is_ascii_text(ascii_uppercase(w)),
        is_ascii_text(ascii_lowercase(w)),
        ascii_lowercase(ascii_uppercase(w)) == ascii_lowercase(w),
        ascii_lowercase(ascii_lowercase(w)) == ascii_lowercase(w),
{
    let u = ascii_uppercase(w);
    let l = ascii_lowercase(w);
    assert forall|i: int| 0 <= i < w.len() implies
        (#[trigger] u[i]) as u32 <= 0x7f && lower_char(u[i]) == lower_char(w[i])
        && l[i] as u32 <= 0x7f && lower_char(l[i]) == l[i] by {
        let c = w[i];
        assert(c as u32 <= 0x7f);
        if 'a' <= c <= 'z' {
            assert(((c as u32) - 32) as char as u32 == (c as u32) - 32);
            assert(((c as u32) - 32 + 32) as char == c);
        } else if 'A' <= c <= 'Z' {
            assert(((c as u32) + 32) as char as u32 == (c as u32) + 32);
        }
    }
    assert(ascii_lowercase(u) =~= l);
    assert(ascii_lowercase(l) =~= l);
}

/// The command word is read without regard to ASCII case: raising the
/// small letters of an ASCII first word changes nothing that the line means,
/// unless the word names no command (then it is given back as typed).
pub proof fn law_keyword_case_ignored(s: Seq<char>, s2: Seq<char>)
    requires
        split_ws(s).len() > 0,
        is_ascii_text(split_ws(s)[0]),
        !(parsed(s) is Unknown),
        split_ws(s2) == split_ws(s).update(0, ascii_uppercase(split_ws(s)[0])),
    ensures
        parsed(s2) == parsed(s),
{
    let ws = split_ws(s);
    let ws2 = split_ws(s2);
    lemma_ascii_case(ws[0]);
    assert(key_of(ws2[0]) == key_of(ws[0]));
    assert(ws2.skip(1) =~= ws.skip(1));
    if ws.len() > 1 {
        assert(ws2[1] == ws[1]);
        assert(ws2.skip(2) =~= ws.skip(2));
    }
    if ws.len() > 2 {
        assert(ws2[2] == ws[2]);
    }
}

/// An ASCII word that lowering leaves as it is.
proof fn lemma_lower_word(w: Seq<char>)
    requires
        forall|i: int| 0 <= i < w.len() ==> 'a' <= #[trigger] w[i] <= 'z',
    ensures
        key_of(w) == w,
{
    assert(is_ascii_text(w));
    assert(ascii_lowercase(w) =~= w);
}

/// A direction given by `go` or by a one-letter move is never empty, reads
/// the same in lowercase, and is never left abbreviated — for a line whose
/// second word, if any, is ASCII.
pub proof fn law_direction_lowercase(s: Seq<char>)
    requires
        split_ws(s).len() > 1 ==> is_ascii_text(split_ws(s)[1]),
    ensures
        match parsed(s) {
            CommandView::Go { direction } => {
                &&& direction.len() > 0
                &&& key_of(direction) == direction
                &&& direction != "n"@ && direction != "s"@ && direction != "e"@
                &&& direction != "w"@ && direction != "u"@ && direction != "d"@
            },
            _ => true,
        },
{
    reveal_strlit("n");
    reveal_strlit("s");
    reveal_strlit("e");
    reveal_strlit("w");
    reveal_strlit("u");
    reveal_strlit("d");
    reveal_strlit("north");
    reveal_strlit("south");
    reveal_strlit("east");
    reveal_strlit("west");
    reveal_strlit("up");
    reveal_strlit("down");
    lemma_lower_word("north"@);
    lemma_lower_word("south"@);
    lemma_lower_word("east"@);
    lemma_lower_word("west"@);
    lemma_lower_word("up"@);
    lemma_lower_word("down"@);
    let ws = split_ws(s);
    if ws.len() > 1 {
        lemma_words_are_words(s, seq![]);
        assert(is_word(ws[1]));
        lemma_ascii_case(ws[1]);
        let dir = key_of(ws[1]);
        assert(dir.len() == ws[1].len());
        assert(key_of(dir) == dir);
    }
}

/// An NPC standing in a room makes the room's count positive.
proof fn lemma_count_positive(ns: Seq<Npc>, room: Seq<char>, i: int)
    requires
        0 <= i < ns.len(),
        ns[i].current_room@ == room,
    ensures
        npc_count_in(ns, room) > 0,
    decreases ns.len(),
{
    if i < ns.len() - 1 {
        lemma_count_positive(ns.drop_last(), room, i);
        assert(ns.drop_last()[i] == ns[i]);
    }
}

/// A room with a positive count has an NPC standing in it.
proof fn lemma_count_witness(ns: Seq<Npc>, room: Seq<char>) -> (i: int)
    requires
        npc_count_in(ns, room) > 0,
    ensures
        0 <= i < ns.len(),
        ns[i].current_room@ == room,
    decreases ns.len(),
{
    if ns.last().current_room@ == room {
        ns.len() - 1
    } else {
        let j = lemma_count_witness(ns.drop_last(), room);
        assert(ns.drop_last()[j] == ns[j]);
        j
    }
}

/// A room that lists prototypes, stands empty and has an existing pick gets
/// a spawn of its pick.
proof fn lemma_slot_of_room(rooms: Seq<(String, Room)>, ns: Seq<Npc>, protos: Map<u32, NpcPrototype>, picks: Seq<u32>, k: int)
    -> (j: int)
    requires
        0 <= k < rooms.len(),
        rooms[k].1.npcs@.len() > 0,
        npc_count_in(ns, rooms[k].1.id@) == 0,
        protos.contains_key(picks[k]),
    ensures
        0 <= j < respawn_slots(rooms, ns, protos, picks).len(),
        respawn_slots(rooms, ns, protos, picks)[j] == (picks[k], rooms[k].1.id@),
    decreases rooms.len(),
{
    let prev = respawn_slots(rooms.drop_last(), ns, protos, picks);
    if k == rooms.len() - 1 {
        prev.len() as int
    } else {
        assert(rooms.drop_last()[k] == rooms[k]);
        let j = lemma_slot_of_room(rooms.drop_last(), ns, protos, picks, k);
        let last = rooms[rooms.len() - 1].1;
        if last.npcs@.len() > 0 && npc_count_in(ns, last.id@) == 0 && protos.contains_key(picks[rooms.len() - 1]) {
            assert(respawn_slots(rooms, ns, protos, picks) == prev.push((picks[rooms.len() - 1], last.id@)));
        }
        j
    }
}

/// No spawn is due where every room that lists prototypes holds an NPC.
proof fn lemma_no_slots(rooms: Seq<(String, Room)>, ns: Seq<Npc>, protos: Map<u32, NpcPrototype>, picks: Seq<u32>)
    requires
        forall|k: int| 0 <= k < rooms.len() && (#[trigger] rooms[k]).1.npcs@.len() > 0 ==> npc_count_in(ns, rooms[k].1.id@) > 0,
    ensures
        respawn_slots(rooms, ns, protos, picks).len() == 0,
    decreases rooms.len(),
{
    if rooms.len() > 0 {
        assert forall|k: int| 0 <= k < rooms.drop_last().len() && (#[trigger] rooms.drop_last()[k]).1.npcs@.len() > 0
            implies npc_count_in(ns, rooms.drop_last()[k].1.id@) > 0 by {
            assert(rooms.drop_last()[k] == rooms[k]);
        }
        lemma_no_slots(rooms.drop_last(), ns, protos, picks);
        assert(rooms[rooms.len() - 1] == rooms[rooms.len() - 1]);
    }
}

/// No room is left empty where every room that lists prototypes holds an NPC.
proof fn lemma_no_empty_rooms(rooms: Seq<(String, Room)>, ns: Seq<Npc>)
    requires
        forall|k: int| 0 <= k < rooms.len() && (#[trigger] rooms[k]).1.npcs@.len() > 0 ==> npc_count_in(ns, rooms[k].1.id@) > 0,
    ensures
        empty_rooms(rooms, ns) == 0,
    decreases rooms.len(),
{
    if rooms.len() > 0 {
        assert forall|k: int| 0 <= k < rooms.drop_last().len() && (#[trigger] rooms.drop_last()[k]).1.npcs@.len() > 0
            implies npc_count_in(ns, rooms.drop_last()[k].1.id@) > 0 by {
            assert(rooms.drop_last()[k] == rooms[k]);
        }
        lemma_no_empty_rooms(rooms.drop_last(), ns);
        assert(rooms[rooms.len() - 1] == rooms[rooms.len() - 1]);
    }
}

/// After a respawn pass, every room that lists NPC prototypes (all of them
/// known) holds an NPC: no room is left for a second pass to fill, so a
/// second pass can always be made (whatever the id counter) and spawns
/// nothing; players and items stay where they were.
pub proof fn law_respawn_fills_rooms_once(w0: WorldState, w1: WorldState, w2: WorldState)
    requires
        forall|k: int, j: int| 0 <= k < w0.static_data.rooms.entries@.len() && 0 <= j < w0.static_data.rooms.entries@[k].1.npcs@.len()
            ==> w0.static_data.npc_prototypes@.contains_key(#[trigger] w0.static_data.rooms.entries@[k].1.npcs@[j]),
        respawn_pass(w0, w1),
        respawn_pass(w1, w2),
    ensures
        forall|k: int| 0 <= k < w1.static_data.rooms.entries@.len() && (#[trigger] w1.static_data.rooms.entries@[k]).1.npcs@.len() > 0
            ==> npc_count_in(w1.dynamic_data.npcs@, w1.static_data.rooms.entries@[k].1.id@) > 0,
        empty_rooms(w1.static_data.rooms.entries@, w1.dynamic_data.npcs@) == 0,
        w2.dynamic_data.npcs@ == w1.dynamic_data.npcs@,
        w2.dynamic_data.next_npc_id == w1.dynamic_data.next_npc_id,
        w2.dynamic_data.players == w0.dynamic_data.players,
        w2.dynamic_data.room_items == w0.dynamic_data.room_items,
{
    let rooms = w0.static_data.rooms.entries@;
    let protos = w0.static_data.npc_prototypes@;
    let ns0 = w0.dynamic_data.npcs@;
    let ns1 = w1.dynamic_data.npcs@;
    let picks = choose|picks: Seq<u32>| picks.len() == rooms.len()
        && (forall|k: int| 0 <= k < picks.len() && rooms[k].1.npcs@.len() > 0 ==> rooms[k].1.npcs@.contains(#[trigger] picks[k]))
        && crate::world::world_state::spawned_after(ns1, ns0, respawn_slots(rooms, ns0, protos, picks), protos, w0.dynamic_data.next_npc_id)
        && w1.dynamic_data.next_npc_id == w0.dynamic_data.next_npc_id + respawn_slots(rooms, ns0, protos, picks).len();
    let slots = respawn_slots(rooms, ns0, protos, picks);
    assert forall|k: int| 0 <= k < rooms.len() && (#[trigger] rooms[k]).1.npcs@.len() > 0
        implies npc_count_in(ns1, rooms[k].1.id@) > 0 by {
        let id = rooms[k].1.id@;
        if npc_count_in(ns0, id) > 0 {
            let i = lemma_count_witness(ns0, id);
            assert(ns1[i] == ns0[i]);
            lemma_count_positive(ns1, id, i);
        } else {
            assert(rooms[k].1.npcs@.contains(picks[k]));
            let q = choose|q: int| 0 <= q < rooms[k].1.npcs@.len() && rooms[k].1.npcs@[q] == picks[k];
            assert(protos.contains_key(rooms[k].1.npcs@[q]));
            let j = lemma_slot_of_room(rooms, ns0, protos, picks, k);
            assert(crate::npc::is_fresh_npc(ns1[ns0.len() + j], (w0.dynamic_data.next_npc_id + j) as u64,
                slots[j].0, protos[slots[j].0], slots[j].1));
            lemma_count_positive(ns1, id, ns0.len() + j);
        }
    }
    let picks2 = choose|picks2: Seq<u32>| picks2.len() == rooms.len()
        && (forall|k: int| 0 <= k < picks2.len() && rooms[k].1.npcs@.len() > 0 ==> rooms[k].1.npcs@.contains(#[trigger] picks2[k]))
        && crate::world::world_state::spawned_after(w2.dynamic_data.npcs@, ns1, respawn_slots(rooms, ns1, protos, picks2), protos, w1.dynamic_data.next_npc_id)
        && w2.dynamic_data.next_npc_id == w1.dynamic_data.next_npc_id + respawn_slots(rooms, ns1, protos, picks2).len();
    lemma_no_slots(rooms, ns1, protos, picks2);
    lemma_no_empty_rooms(rooms, ns1);
    assert(w2.dynamic_data.npcs@ =~= ns1);
}

/// A number written in decimal reads back as itself.
pub proof fn law_number_text_round_trip(n: u32)
    ensures
        parsed_u32(decimal(n as nat)) == Some(n),
{
    lemma_decimal_digits(n as nat);
    assert(unsigned_body(decimal(n as nat)) == decimal(n as nat));
}

/// A value put under a key in a table is what the key then finds; other
/// keys find what they found before.
pub proof fn law_table_read_after_write<T>(before: Registry<T>, after: Registry<T>, key: Seq<char>, value: T, other: Seq<char>)
    requires
        after.lookup(key) == Some(value),
        forall|k: Seq<char>| k != key ==> #[trigger] after.lookup(k) == before.lookup(k),
    ensures
        after.lookup(key) == Some(value),
        other != key ==> after.lookup(other) == before.lookup(other),
{
}

/// No blow of a combat round marks a death: a blow that would kill is
/// reported by the attack as a kill, and the round acts only on hits and
/// misses.
pub proof fn law_round_marks_no_death(ents: Seq<CombatEntity>, skills: Registry<SkillTemplate>, rolls: Seq<(i32, i32)>, n: int)
    requires
        round_fits(ents, skills),
        0 <= n <= ents.len(),
        rolls.len() == ents.len(),
    ensures
        forall|k: int| 0 <= k < tick_updates(ents, skills, rolls, n).len() ==> !(#[trigger] tick_updates(ents, skills, rolls, n)[k]).is_dead,
    decreases n,
{
    if n > 0 {
        law_round_marks_no_death(ents, skills, rolls, n - 1);
        let k = n - 1;
        let rest = tick_updates(ents, skills, rolls, n - 1);
        match entity_update(ents, k, skills, rolls[k]) {
            Some(u) => {
                let e = ents[k];
                let ti = crate::combat_ticks::first_fighter(ents, e.target_is_player, crate::combat_ticks::target_key(e));
                crate::combat_ticks::lemma_first_fighter(ents, e.target_is_player, crate::combat_ticks::target_key(e));
                assert(crate::combat::attack_fits(
                    crate::combat_ticks::stats_of(ents[k]), crate::combat_ticks::stats_of(ents[ti]), skills.lookup(ents[k].skill_id@)));
                assert(!u.is_dead);
                assert(tick_updates(ents, skills, rolls, n) == rest.push(u));
                assert forall|j: int| 0 <= j < rest.push(u).len() implies !(#[trigger] rest.push(u)[j]).is_dead by {
                    if j < rest.len() {
                        assert(rest.push(u)[j] == rest[j]);
                    }
                }
            },
            None => {
                assert(tick_updates(ents, skills, rolls, n) == rest);
            },
        }
    }
}

/// A skill adds to its base damage its multiplier (in thousandths, the
/// product cut toward zero and kept within `i32`) times the attribute it
/// names: strength for `str`, dexterity for `dex`, intelligence for `int`,
/// and 16 for anything else. No other attribute counts.
pub proof fn law_skill_scales_with_its_attribute(skill: SkillTemplate, s: i32, d: i32, i: i32, s2: i32, d2: i32, i2: i32)
    ensures
        ({
            let x: int = if skill.scaling_attr@ == "str"@ { s as int } else if skill.scaling_attr@ == "dex"@ { d as int }
                else if skill.scaling_attr@ == "int"@ { i as int } else { 16 };
            let prod = x * skill.scaling_multiplier_permille;
            let q = if prod >= 0 { prod / 1000 } else { -((-prod) / 1000) };
            let part = if q > i32::MAX { i32::MAX as int } else if q < i32::MIN { i32::MIN as int } else { q };
            skill_damage(skill, s, d, i) == skill.base_damage + part
        }),
        skill.scaling_attr@ == "str"@ ==> skill_damage(skill, s, d, i) == skill_damage(skill, s, d2, i2),
        skill.scaling_attr@ == "dex"@ ==> skill_damage(skill, s, d, i) == skill_damage(skill, s2, d, i2),
        skill.scaling_attr@ == "int"@ ==> skill_damage(skill, s, d, i) == skill_damage(skill, s2, d2, i),
        skill.scaling_attr@ != "str"@ && skill.scaling_attr@ != "dex"@ && skill.scaling_attr@ != "int"@
            ==> skill_damage(skill, s, d, i) == skill_damage(skill, s2, d2, i2),
{
    reveal_strlit("str");
    reveal_strlit("dex");
    reveal_strlit("int");
    assert("dex"@[0] != "str"@[0]);
    assert("int"@[0] != "str"@[0]);
    assert("int"@[0] != "dex"@[0]);
}

/// Each one-letter direction, typed alone or after `go` (in any case of an
/// ASCII word), moves that way: n north, s south, e east, w west, u up,
/// d down; the six directions are all different.
pub proof fn law_direction_letters(s: Seq<char>)
    ensures
        direction_name("n"@) == "north"@ && direction_name("s"@) == "south"@ && direction_name("e"@) == "east"@,
        direction_name("w"@) == "west"@ && direction_name("u"@) == "up"@ && direction_name("d"@) == "down"@,
        forall|a: Seq<char>, b: Seq<char>| #![trigger direction_name(a), direction_name(b)]
            (a == "n"@ || a == "s"@ || a == "e"@ || a == "w"@ || a == "u"@ || a == "d"@)
            && (b == "n"@ || b == "s"@ || b == "e"@ || b == "w"@ || b == "u"@ || b == "d"@) && a != b
            ==> direction_name(a) != direction_name(b),
        ({
            let ws = split_ws(s);
            ws.len() > 0 ==> {
                &&& key_of(ws[0]) == "n"@ ==> parsed(s) == CommandView::Go { direction: "north"@ }
                &&& key_of(ws[0]) == "s"@ ==> parsed(s) == CommandView::Go { direction: "south"@ }
                &&& key_of(ws[0]) == "e"@ ==> parsed(s) == CommandView::Go { direction: "east"@ }
                &&& key_of(ws[0]) == "w"@ ==> parsed(s) == CommandView::Go { direction: "west"@ }
                &&& key_of(ws[0]) == "u"@ ==> parsed(s) == CommandView::Go { direction: "up"@ }
                &&& key_of(ws[0]) == "d"@ ==> parsed(s) == CommandView::Go { direction: "down"@ }
            }
        }),
        ({
            let ws = split_ws(s);
            ws.len() > 1 && key_of(ws[0]) == "go"@ ==> {
                &&& key_of(ws[1]) == "n"@ ==> parsed(s) == CommandView::Go { direction: "north"@ }
                &&& key_of(ws[1]) == "s"@ ==> parsed(s) == CommandView::Go { direction: "south"@ }
                &&& key_of(ws[1]) == "e"@ ==> parsed(s) == CommandView::Go { direction: "east"@ }
                &&& key_of(ws[1]) == "w"@ ==> parsed(s) == CommandView::Go { direction: "west"@ }
                &&& key_of(ws[1]) == "u"@ ==> parsed(s) == CommandView::Go { direction: "up"@ }
                &&& key_of(ws[1]) == "d"@ ==> parsed(s) == CommandView::Go { direction: "down"@ }
            }
        }),
{
    reveal_strlit("n");
    reveal_strlit("s");
    reveal_strlit("e");
    reveal_strlit("w");
    reveal_strlit("u");
    reveal_strlit("d");
    reveal_strlit("north");
    reveal_strlit("south");
    reveal_strlit("east");
    reveal_strlit("west");
    reveal_strlit("up");
    reveal_strlit("down");
    reveal_strlit("go");
    reveal_strlit("attack");
    reveal_strlit("perform");
    reveal_strlit("look");
    reveal_strlit("score");
    reveal_strlit("status");
    reveal_strlit("attr");
    reveal_strlit("talk");
    reveal_strlit("chat");
    reveal_strlit("quest");
    reveal_strlit("qs");
    reveal_strlit("accept");
    reveal_strlit("say");
    let letters = seq!["n"@, "s"@, "e"@, "w"@, "u"@, "d"@];
    assert forall|a: int, b: int| 0 <= a < 6 && 0 <= b < 6 && a != b implies letters[a] != letters[b] by {
        assert(letters[a][0] != letters[b][0]);
    }
    assert("s"@ != "n"@);
    assert("e"@ != "n"@ && "e"@ != "s"@);
    assert("w"@ != "n"@ && "w"@ != "s"@ && "w"@ != "e"@);
    assert("u"@ != "n"@ && "u"@ != "s"@ && "u"@ != "e"@ && "u"@ != "w"@);
    assert("d"@ != "n"@ && "d"@ != "s"@ && "d"@ != "e"@ && "d"@ != "w"@ && "d"@ != "u"@);
    assert("north"@[0] != "south"@[0] && "north"@[0] != "east"@[0] && "north"@[0] != "west"@[0]);
    assert("north"@[0] != "up"@[0] && "north"@[0] != "down"@[0]);
    assert("south"@[0] != "east"@[0] && "south"@[0] != "west"@[0] && "south"@[0] != "up"@[0] && "south"@[0] != "down"@[0]);
    assert("east"@[0] != "west"@[0] && "east"@[0] != "up"@[0] && "east"@[0] != "down"@[0]);
    assert("west"@[0] != "up"@[0] && "west"@[0] != "down"@[0] && "up"@[0] != "down"@[0]);
    assert("attack"@.len() == 6 && "perform"@.len() == 7 && "look"@.len() == 4 && "score"@.len() == 5);
    assert("status"@.len() == 6 && "attr"@.len() == 4 && "talk"@.len() == 4 && "chat"@.len() == 4);
    assert("quest"@.len() == 5 && "qs"@.len() == 2 && "accept"@.len() == 6 && "say"@.len() == 3 && "go"@.len() == 2);
    assert("go"@[0] != "qs"@[0]);
    let ws = split_ws(s);
    if ws.len() > 0 {
        let k = key_of(ws[0]);
        if k.len() == 1 {
            assert(k != "attack"@ && k != "perform"@ && k != "look"@ && k != "score"@ && k != "status"@ && k != "attr"@);
            assert(k != "talk"@ && k != "chat"@ && k != "quest"@ && k != "qs"@ && k != "accept"@ && k != "say"@ && k != "go"@);
        }
        if k == "go"@ {
            assert(k != "attack"@ && k != "perform"@ && k != "look"@ && k != "score"@ && k != "status"@ && k != "attr"@);
            assert(k != "talk"@ && k != "chat"@ && k != "quest"@ && k != "qs"@ && k != "accept"@ && k != "say"@);
        }
    }
}

/// A heal restores half the skill's damage taken as a size (rounded down),
/// but never more than the healer is missing.
pub proof fn law_heal_capped(skill: SkillTemplate, healer: CombatStats)
    ensures
        heal_amount(skill, healer) <= healer.max_hp - healer.hp,
        ({
            let dmg = skill_damage(skill, healer.str, healer.dex, healer.int);
            let half = (if dmg < 0 { -dmg } else { dmg }) / 2;
            heal_amount(skill, healer) == if half < healer.max_hp - healer.hp { half } else { healer.max_hp - healer.hp }
        }),
        healer.hp <= healer.max_hp ==> heal_amount(skill, healer) >= 0,
{
}

/// A heartbeat regains `5 + con / 10` stamina standing and twice that
/// resting, up to the maximum: below the maximum, resting regains more.
pub proof fn law_resting_doubles_recovery(p: Player)
    ensures
        recovered(p).stamina == min_int(p.stamina + (if p.is_resting { 2int } else { 1int }) * (5 + p.stats.con / 10), p.stamina_max as int),
        recovered(p).stamina_max == p.stamina_max,
        p.stamina + 5 + p.stats.con / 10 < p.stamina_max ==>
            recovered(Player { is_resting: true, ..p }).stamina > recovered(Player { is_resting: false, ..p }).stamina,
{
}

/// The first counter of `k` is at position `i` when it is there and not before.
proof fn lemma_counter_at(s: Seq<(Seq<char>, u32)>, k: Seq<char>, i: int)
    requires
        0 <= i < s.len(),
        s[i].0 == k,
        forall|j: int| 0 <= j < i ==> s[j].0 != k,
    ensures
        counter_index(s, k) == i,
{
    lemma_counter_index(s, k);
    let c = counter_index(s, k);
    if c < 0 {
        assert(s[i].0 != k);
    } else if c < i {
        assert(s[c].0 == k);
    } else if c > i {
        assert(s[i].0 != k);
    }
}

/// A kill of a quest's target adds one to its counter; a kill quest is
/// completed exactly when it already was or its counter reaches the
/// quest's target count (1 when it names none). Quests that do not count
/// the monster are left as they were.
pub proof fn law_kill_quest_completes_at_target(sts: Seq<QuestStatusView>, reg: Registry<Quest>, monster: Seq<char>, j: int)
    requires
        0 <= j < sts.len(),
        counter_of(sts[j].kill_counts, monster) < u32::MAX,
    ensures
        ({
            let a = statuses_after_kill(sts, reg, monster)[j];
            match reg.lookup(sts[j].quest_id) {
                Some(q) => if q.quest_type@ == "kill"@ && q.target_id@ == monster {
                    &&& counter_of(a.kill_counts, monster) == counter_of(sts[j].kill_counts, monster) + 1
                    &&& a.is_completed == (sts[j].is_completed || counter_of(a.kill_counts, monster)
                        >= (match q.target_count { Some(n) => n as int, None => 1 }))
                    &&& a.quest_id == sts[j].quest_id && a.current_step == sts[j].current_step
                } else {
                    a == sts[j]
                },
                None => a == sts[j],
            }
        }),
        statuses_after_kill(sts, reg, monster).len() == sts.len(),
{
    let st = sts[j];
    let c = st.kill_counts;
    lemma_counter_index(c, monster);
    let i = counter_index(c, monster);
    let a = statuses_after_kill(sts, reg, monster)[j];
    if let Some(q) = reg.lookup(st.quest_id) {
        if q.quest_type@ == "kill"@ && q.target_id@ == monster {
            if i >= 0 {
                let c2 = c.update(i, (monster, (c[i].1 + 1) as u32));
                assert forall|x: int| 0 <= x < i implies c2[x].0 != monster by {}
                lemma_counter_at(c2, monster, i);
            } else {
                let c2 = c.push((monster, 1u32));
                assert forall|x: int| 0 <= x < c.len() implies c2[x].0 != monster by {}
                lemma_counter_at(c2, monster, c.len() as int);
            }
        }
    }
}

/// The report of a kill for a kill quest of the monster shows the new count
/// against the quest's target count (1 when it names none), and announces
/// the goal reached exactly when the count gets there.
pub proof fn law_kill_report_shows_target(st: QuestStatusView, q: Quest, monster: Seq<char>)
    requires
        q.quest_type@ == "kill"@,
        q.target_id@ == monster,
    ensures
        ({
            let m = kill_msgs(st, Some(q), monster);
            let count = counter_of(st.kill_counts, monster) + 1;
            let target: int = match q.target_count { Some(n) => n as int, None => 1 };
            &&& m.len() >= 2
            &&& m[1].0 == "[任务进度] "@ + q.name@ + ": "@ + decimal(count as nat) + "/"@ + decimal(target as nat)
            &&& (m.len() > 2 <==> count >= target)
        }),
{
}

} // verus!
