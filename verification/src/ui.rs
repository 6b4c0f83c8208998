//! What players see: the welcome banner, realm names, room descriptions and
//! the list of players online.

use vstd::prelude::*;
use vstd::string::*;
use crate::styled::{Text, Style, Color, spaces, decimal, repeated, list_has, u64_text, chars_of, write_spaces, char_count,
    spec_plain_style, spec_color, spec_color_bold, plain_style, color, color_bold, push_char};
use crate::world::world_player::{cn_digit, cn_digit_text};
use crate::world::world_state::WorldState;
use crate::npc::Npc;
use crate::world_model::{ItemPrototype, NpcPrototype, Room};
use crate::world::world_state::{loc_of, npcs_in};
use crate::world::world_player::Player;
use crate::game::{GameState, PlayerSession};
use crate::styled::{same_text, contains_text, repeat_text};

verus! {

/// The name of a realm's first two characters, for realms 1 to 5.
pub open spec fn realm_prefix(level: int) -> Seq<char> {
    if level == 1 { "炼气"@ }
    else if level == 2 { "筑基"@ }
    else if level == 3 { "金丹"@ }
    else if level == 4 { "元婴"@ }
    else { "化神"@ }
}

/// The name of a realm and sub-level, such as 炼气三层; `境界` and the number
/// for realms beyond the fifth.
pub open spec fn realm_name(level: u16, sub: u16) -> Seq<char> {
    if 1 <= level <= 5 {
        realm_prefix(level as int) + cn_digit(sub as int) + "层"@
    } else {
        "境界"@ + decimal(level as nat)
    }
}

/// The name of a realm and sub-level.
pub fn realm_level_to_name(level: u16, sub_level: u16) -> (r: String)
    ensures
        r@ == realm_name(level, sub_level),
{
    if level >= 1 && level <= 5 {
        let mut r = match level {
            1 => "炼气".to_string(),
            2 => "筑基".to_string(),
            3 => "金丹".to_string(),
            4 => "元婴".to_string(),
            _ => "化神".to_string(),
        };
        r.append(cn_digit_text(sub_level));
        r.append("层");
        r
    } else {
        let mut r = "境界".to_string();
        r.append(u64_text(level as u64).as_str());
        r
    }
}

/// Text centred in `width` characters: the spare spaces split with the
/// smaller half on the left; text at least that wide stays as it is.
pub open spec fn centered(s: Seq<char>, width: nat) -> Seq<char> {
    if s.len() >= width {
        s
    } else {
        let pad = (width - s.len()) as nat;
        spaces(pad / 2) + s + spaces((pad - pad / 2) as nat)
    }
}

/// Centres text in `width` characters.
pub fn pad_to_width(s: &str, width: usize) -> (r: String)
    ensures
        r@ == centered(s@, width as nat),
{
    let n = char_count(s);
    if n >= width {
        return s.to_string();
    }
    let padding = width - n;
    let left = padding / 2;
    let right = padding - left;
    let mut r = String::new();
    write_spaces(&mut r, left);
    r.append(s);
    write_spaces(&mut r, right);
    r
}

/// Whether `s` begins with `p`.
pub open spec fn begins_with(s: Seq<char>, p: Seq<char>) -> bool {
    p.len() <= s.len() && s.take(p.len() as int) == p
}

/// The realm read back from a realm name: by its first two characters, 0 if
/// they name no realm.
pub open spec fn realm_of_name(s: Seq<char>) -> u16 {
    if begins_with(s, "炼气"@) { 1 }
    else if begins_with(s, "筑基"@) { 2 }
    else if begins_with(s, "金丹"@) { 3 }
    else if begins_with(s, "元婴"@) { 4 }
    else if begins_with(s, "化神"@) { 5 }
    else { 0 }
}

/// The sub-level read back from a realm name: the first of the numerals
/// 一 to 九 (in that order) that occurs in it, 0 if none does.
pub open spec fn sub_of_name(s: Seq<char>) -> u16 {
    if s.contains('一') { 1 }
    else if s.contains('二') { 2 }
    else if s.contains('三') { 3 }
    else if s.contains('四') { 4 }
    else if s.contains('五') { 5 }
    else if s.contains('六') { 6 }
    else if s.contains('七') { 7 }
    else if s.contains('八') { 8 }
    else if s.contains('九') { 9 }
    else { 0 }
}

/// Whether the characters of `p` open `s`.
fn begins_with_chars(s: &Vec<char>, p: &str) -> (r: bool)
    ensures
        r == begins_with(s@, p@),
{
    let pc = chars_of(p);
    if pc.len() > s.len() {
        return false;
    }
    let mut i: usize = 0;
    while i < pc.len()
        invariant
            pc@ == p@,
            pc.len() <= s.len(),
            i <= pc.len(),
            forall|k: int| 0 <= k < i ==> s@[k] == pc@[k],
        decreases pc.len() - i,
    {
        if s[i] != pc[i] {
            assert(s@.take(pc@.len() as int)[i as int] != pc@[i as int]);
            return false;
        }
        i = i + 1;
    }
    assert(s@.take(pc@.len() as int) =~= pc@);
    true
}

/// Whether `c` occurs in `s`.
fn has_char(s: &Vec<char>, c: char) -> (r: bool)
    ensures
        r == s@.contains(c),
{
    let mut i: usize = 0;
    while i < s.len()
        invariant
            i <= s.len(),
            forall|k: int| 0 <= k < i ==> s@[k] != c,
        decreases s.len() - i,
    {
        if s[i] == c {
            return true;
        }
        i = i + 1;
    }
    false
}

/// The realm and sub-level named by a realm name.
pub fn parse_realm_level(realm: &str) -> (r: (u16, u16))
    ensures
        r.0 == realm_of_name(realm@),
        r.1 == sub_of_name(realm@),
{
    let s = chars_of(realm);
    let level: u16 = if begins_with_chars(&s, "炼气") {
        1
    } else if begins_with_chars(&s, "筑基") {
        2
    } else if begins_with_chars(&s, "金丹") {
        3
    } else if begins_with_chars(&s, "元婴") {
        4
    } else if begins_with_chars(&s, "化神") {
        5
    } else {
        0
    };
    let sub: u16 = if has_char(&s, '一') {
        1
    } else if has_char(&s, '二') {
        2
    } else if has_char(&s, '三') {
        3
    } else if has_char(&s, '四') {
        4
    } else if has_char(&s, '五') {
        5
    } else if has_char(&s, '六') {
        6
    } else if has_char(&s, '七') {
        7
    } else if has_char(&s, '八') {
        8
    } else if has_char(&s, '九') {
        9
    } else {
        0
    };
    (level, sub)
}

/// Reading a realm name back gives the realm and sub-level it was made from,
/// for the five named realms and the sub-levels 1 to 9.
pub proof fn lemma_realm_name_round_trip(level: u16, sub: u16)
    requires
        1 <= level <= 5,
        1 <= sub <= 9,
    ensures
        realm_of_name(realm_name(level, sub)) == level,
        sub_of_name(realm_name(level, sub)) == sub,
{
    reveal_strlit("炼气");
    reveal_strlit("筑基");
    reveal_strlit("金丹");
    reveal_strlit("元婴");
    reveal_strlit("化神");
    reveal_strlit("层");
    reveal_strlit("一");
    reveal_strlit("二");
    reveal_strlit("三");
    reveal_strlit("四");
    reveal_strlit("五");
    reveal_strlit("六");
    reveal_strlit("七");
    reveal_strlit("八");
    reveal_strlit("九");
    let n = realm_name(level, sub);
    assert(n.len() == 4);
    assert(n[0] == realm_prefix(level as int)[0]);
    assert(n[1] == realm_prefix(level as int)[1]);
    assert(n[2] == cn_digit(sub as int)[0]);
    assert(n[3] == '层');
    assert(n.take(2) =~= realm_prefix(level as int));
    assert(forall|c: char| n.contains(c) <==> (c == n[0] || c == n[1] || c == n[2] || c == n[3]));
}


/// Names in one style, separated by plain `, `.
pub open spec fn joined_spans(names: Seq<Seq<char>>, style: Style) -> Seq<(Seq<char>, Style)>
    decreases names.len(),
{
    if names.len() == 0 {
        seq![]
    } else if names.len() == 1 {
        seq![(names[0], style)]
    } else {
        joined_spans(names.drop_last(), style) + seq![(", "@, spec_plain_style()), (names.last(), style)]
    }
}

/// Texts joined with a separator.
pub open spec fn joined_text(names: Seq<Seq<char>>, sep: Seq<char>) -> Seq<char>
    decreases names.len(),
{
    if names.len() == 0 {
        seq![]
    } else if names.len() == 1 {
        names[0]
    } else {
        joined_text(names.drop_last(), sep) + sep + names.last()
    }
}

/// Appends names in one style, separated by plain `, `.
pub fn push_joined(out: &mut Text, names: &Vec<String>, style: Style)
    ensures
        final(out)@ == old(out)@ + joined_spans(crate::command::views_of(names@), style),
{
    let ghost start = out@;
    let mut i: usize = 0;
    while i < names.len()
        invariant
            i <= names.len(),
            out@ == start + joined_spans(crate::command::views_of(names@.take(i as int)), style),
        decreases names.len() - i,
    {
        proof {
            assert(crate::command::views_of(names@.take(i + 1)).drop_last() =~= crate::command::views_of(names@.take(i as int)));
        }
        if i > 0 {
            out.push_plain(", ");
        }
        out.push(names[i].as_str(), style);
        proof {
            let vs = crate::command::views_of(names@.take(i + 1));
            assert(vs.last() == names@[i as int]@);
            if i == 0 {
                assert(vs.len() == 1);
                assert(out@ =~= start + joined_spans(vs, style));
            } else {
                assert(out@ =~= start + joined_spans(vs, style));
            }
        }
        i = i + 1;
    }
    proof { assert(names@.take(i as int) =~= names@); }
}

/// Texts joined with a separator.
pub fn join_strings(names: &Vec<String>, sep: &str) -> (r: String)
    ensures
        r@ == joined_text(crate::command::views_of(names@), sep@),
{
    let mut r = String::new();
    let mut i: usize = 0;
    while i < names.len()
        invariant
            i <= names.len(),
            r@ == joined_text(crate::command::views_of(names@.take(i as int)), sep@),
        decreases names.len() - i,
    {
        proof {
            assert(crate::command::views_of(names@.take(i + 1)).drop_last() =~= crate::command::views_of(names@.take(i as int)));
        }
        if i > 0 {
            r.append(sep);
        }
        r.append(names[i].as_str());
        proof {
            let vs = crate::command::views_of(names@.take(i + 1));
            assert(vs.last() == names@[i as int]@);
            if i == 0 {
                assert(r@ =~= joined_text(vs, sep@));
            } else {
                assert(r@ =~= joined_text(vs, sep@));
            }
        }
        i = i + 1;
    }
    proof { assert(names@.take(i as int) =~= names@); }
    r
}


/// The names of NPCs.
pub open spec fn npc_names(ns: Seq<Npc>) -> Seq<Seq<char>> {
    ns.map_values(|n: Npc| n.name@)
}

/// The names of the items among `ids` that have a prototype, in order.
pub open spec fn item_names(ids: Seq<u32>, protos: Map<u32, ItemPrototype>) -> Seq<Seq<char>>
    decreases ids.len(),
{
    if ids.len() == 0 {
        seq![]
    } else {
        let prev = item_names(ids.drop_last(), protos);
        if protos.contains_key(ids.last()) { prev.push(protos[ids.last()].name@) } else { prev }
    }
}

/// The directions of a room's exits.
pub open spec fn exit_names(room: Room) -> Seq<Seq<char>> {
    room.exits@.map_values(|e: (String, String)| e.0@)
}

/// A room as seen from inside: its name and description, the players, NPCs
/// and items in it, and its exits; each part only when there is something
/// to show. No room: the void.
pub open spec fn room_description(room: Option<Room>, players: Seq<Seq<char>>, npcs: Seq<Seq<char>>, items: Seq<Seq<char>>) -> Seq<(Seq<char>, Style)> {
    match room {
        None => seq![("你身处一片虚无之中。"@, spec_plain_style())],
        Some(r) => seq![(r.name@, spec_color_bold(Color::Cyan)), ("\n"@ + r.description@, spec_plain_style())]
            + (if players.len() > 0 { seq![("\n你在此处看到了："@, spec_plain_style())] + joined_spans(players, spec_color(Color::Green)) } else { seq![] })
            + (if npcs.len() > 0 { seq![("\n● "@, spec_plain_style())] + joined_spans(npcs, spec_color(Color::Green)) } else { seq![] })
            + (if items.len() > 0 { seq![("\n"@ + joined_text(items, ", "@), spec_plain_style())] } else { seq![] })
            + (if r.exits@.len() > 0 {
                seq![("\n"@, spec_plain_style()), ("出口: ["@ + joined_text(exit_names(r), ", "@) + "]"@, spec_color(Color::White))]
            } else {
                seq![]
            }),
    }
}

/// The names of NPCs.
fn names_of_npcs(ns: &Vec<Npc>) -> (r: Vec<String>)
    ensures
        crate::command::views_of(r@) == npc_names(ns@),
{
    let mut r: Vec<String> = Vec::new();
    let mut i: usize = 0;
    while i < ns.len()
        invariant
            i <= ns.len(),
            crate::command::views_of(r@) == npc_names(ns@.take(i as int)),
        decreases ns.len() - i,
    {
        let ghost r0 = r@;
        r.push(ns[i].name.clone());
        proof {
            assert(crate::command::views_of(r@) =~= crate::command::views_of(r0).push(ns@[i as int].name@));
            assert(npc_names(ns@.take(i + 1)) =~= npc_names(ns@.take(i as int)).push(ns@[i as int].name@));
        }
        i = i + 1;
    }
    proof { assert(ns@.take(i as int) =~= ns@); }
    r
}

/// The names of the items among `ids` that have a prototype.
fn names_of_items(ids: &Vec<u32>, world: &WorldState) -> (r: Vec<String>)
    ensures
        crate::command::views_of(r@) == item_names(ids@, world.static_data.item_prototypes@),
{
    let mut r: Vec<String> = Vec::new();
    let mut i: usize = 0;
    while i < ids.len()
        invariant
            i <= ids.len(),
            crate::command::views_of(r@) == item_names(ids@.take(i as int), world.static_data.item_prototypes@),
        decreases ids.len() - i,
    {
        proof {
            assert(ids@.take(i + 1).drop_last() =~= ids@.take(i as int));
            assert(ids@.take(i + 1).last() == ids@[i as int]);
        }
        match world.static_data.item_prototype(ids[i]) {
            Some(p) => {
                r.push(p.name.clone());
            },
            None => {},
        }
        i = i + 1;
        proof { assert(crate::command::views_of(r@) =~= item_names(ids@.take(i as int), world.static_data.item_prototypes@)); }
    }
    proof { assert(ids@.take(i as int) =~= ids@); }
    r
}

/// The directions of a room's exits.
fn names_of_exits(room: &Room) -> (r: Vec<String>)
    ensures
        crate::command::views_of(r@) == exit_names(*room),
{
    let mut r: Vec<String> = Vec::new();
    let mut i: usize = 0;
    while i < room.exits.len()
        invariant
            i <= room.exits.len(),
            crate::command::views_of(r@) == room.exits@.take(i as int).map_values(|e: (String, String)| e.0@),
        decreases room.exits.len() - i,
    {
        let ghost r0 = r@;
        r.push(room.exits[i].0.clone());
        proof {
            assert(crate::command::views_of(r@) =~= crate::command::views_of(r0).push(room.exits@[i as int].0@));
            assert(room.exits@.take(i + 1).map_values(|e: (String, String)| e.0@)
                =~= room.exits@.take(i as int).map_values(|e: (String, String)| e.0@).push(room.exits@[i as int].0@));
        }
        i = i + 1;
    }
    proof { assert(room.exits@.take(i as int) =~= room.exits@); }
    r
}

/// The description of room `room_id` with the given players, NPCs and items in it.
#[verifier::spinoff_prover]
#[verifier::rlimit(40)]
pub fn get_full_room_description(
    room_id: &str,
    world_state: &WorldState,
    other_players: Vec<String>,
    npcs_in_room: Vec<Npc>,
    room_items: Vec<u32>,
) -> (out: Text)
    ensures
        out@ == room_description(
            world_state.static_data.rooms.lookup(room_id@),
            crate::command::views_of(other_players@),
            npc_names(npcs_in_room@),
            item_names(room_items@, world_state.static_data.item_prototypes@),
        ),
{
    let mut out = Text::new();
    match world_state.get_room(room_id) {
        None => {
            out.push_plain("你身处一片虚无之中。");
            out
        },
        Some(room) => {
            out.push(room.name.as_str(), color_bold(Color::Cyan));
            let mut d = "\n".to_string();
            d.append(room.description.as_str());
            out.push_string(d, plain_style());
            let ghost a = out@;
            if other_players.len() > 0 {
                out.push_plain("\n你在此处看到了：");
                push_joined(&mut out, &other_players, color(Color::Green));
            }
            let ghost b = out@;
            let npc_list = names_of_npcs(&npcs_in_room);
            if npcs_in_room.len() > 0 {
                out.push_plain("\n● ");
                push_joined(&mut out, &npc_list, color(Color::Green));
            }
            let ghost c = out@;
            let item_list = names_of_items(&room_items, world_state);
            if item_list.len() > 0 {
                let mut line = "\n".to_string();
                line.append(join_strings(&item_list, ", ").as_str());
                out.push_string(line, plain_style());
            }
            let ghost d2 = out@;
            if room.exits.len() > 0 {
                out.push_plain("\n");
                let exits = names_of_exits(room);
                let mut line = "出口: [".to_string();
                line.append(join_strings(&exits, ", ").as_str());
                line.append("]");
                out.push_string(line, color(Color::White));
            }
            proof {
                let players = crate::command::views_of(other_players@);
                let npcs = npc_names(npcs_in_room@);
                let items = item_names(room_items@, world_state.static_data.item_prototypes@);
                assert(a =~= seq![(room.name@, spec_color_bold(Color::Cyan)), ("\n"@ + room.description@, spec_plain_style())]);
                assert(b =~= a + (if players.len() > 0 { seq![("\n你在此处看到了："@, spec_plain_style())] + joined_spans(players, spec_color(Color::Green)) } else { seq![] }));
                assert(c =~= b + (if npcs.len() > 0 { seq![("\n● "@, spec_plain_style())] + joined_spans(npcs, spec_color(Color::Green)) } else { seq![] }));
                assert(d2 =~= c + (if items.len() > 0 { seq![("\n"@ + joined_text(items, ", "@), spec_plain_style())] } else { seq![] }));
                assert(out@ =~= room_description(Some(*room), players, npcs, items));
            }
            out
        },
    }
}


/// A row of the list of players online: name, realm, sect and status.
pub type WhoRowView = (Seq<char>, Seq<char>, Seq<char>, Seq<char>);

/// Whether an NPC of prototype `pid` fights: a monster, or not flagged friendly.
/// An NPC without a prototype does not count.
pub open spec fn npc_hostile(protos: Map<u32, NpcPrototype>, pid: u32) -> bool {
    protos.contains_key(pid) && (protos[pid].ai@ == "monster"@ || !list_has(protos[pid].flags@, "friendly"@))
}

/// The room a player stands in, or the empty id.
pub open spec fn room_of(world: WorldState, pid: u64) -> Seq<char> {
    match loc_of(world.dynamic_data.players@, pid) {
        Some(l) => l.room_id@,
        None => seq![],
    }
}

/// Whether a hostile NPC in the player's room has the player as its target.
pub open spec fn in_combat(world: WorldState, pid: u64) -> bool {
    let ns = npcs_in(world.dynamic_data.npcs@, room_of(world, pid));
    exists|i: int| 0 <= i < ns.len() && npc_hostile(world.static_data.npc_prototypes@, #[trigger] ns[i].prototype_id)
        && ns[i].combat_target == Some(pid)
}

/// What a player is doing: fighting, resting, or travelling.
pub open spec fn player_status(world: WorldState, p: Player) -> Seq<char> {
    if in_combat(world, p.id) { "战斗中"@ } else if p.is_resting { "打坐中"@ } else { "游历中"@ }
}

/// The row of a logged-in player.
pub open spec fn who_row(world: WorldState, p: Player) -> WhoRowView {
    (
        p.name@,
        realm_name(p.realm_level, p.realm_sub_level),
        match p.sect { Some(x) => x@, None => "无"@ },
        player_status(world, p),
    )
}

/// The rows of the logged-in players, in session order.
pub open spec fn who_rows(world: WorldState, ss: Seq<PlayerSession>) -> Seq<WhoRowView>
    decreases ss.len(),
{
    if ss.len() == 0 {
        seq![]
    } else {
        let prev = who_rows(world, ss.drop_last());
        if ss.last().user_id is Some { prev.push(who_row(world, ss.last().player)) } else { prev }
    }
}

/// The realm and sub-level a row is ranked by, read back from its realm name.
pub open spec fn row_rank(r: WhoRowView) -> (u16, u16) {
    (realm_of_name(r.1), sub_of_name(r.1))
}

/// Whether row `a` ranks below row `b`.
pub open spec fn ranks_below(a: WhoRowView, b: WhoRowView) -> bool {
    row_rank(a).0 < row_rank(b).0 || (row_rank(a).0 == row_rank(b).0 && row_rank(a).1 < row_rank(b).1)
}

/// A row put into a list ranked from high to low, after every row that
/// ranks at least as high.
pub open spec fn insert_ranked(s: Seq<WhoRowView>, x: WhoRowView) -> Seq<WhoRowView>
    decreases s.len(),
{
    if s.len() == 0 {
        seq![x]
    } else if ranks_below(s[0], x) {
        seq![x] + s
    } else {
        seq![s[0]] + insert_ranked(s.drop_first(), x)
    }
}

/// Rows ranked from high to low; rows of equal rank keep their order.
pub open spec fn ranked(rows: Seq<WhoRowView>) -> Seq<WhoRowView>
    decreases rows.len(),
{
    if rows.len() == 0 { seq![] } else { insert_ranked(ranked(rows.drop_last()), rows.last()) }
}

pub proof fn lemma_insert_ranked(s: Seq<WhoRowView>, x: WhoRowView, j: int)
    requires
        0 <= j <= s.len(),
        forall|k: int| 0 <= k < j ==> !ranks_below(#[trigger] s[k], x),
        j < s.len() ==> ranks_below(s[j], x),
    ensures
        insert_ranked(s, x) == s.take(j) + seq![x] + s.skip(j),
    decreases s.len(),
{
    if s.len() == 0 {
        assert(s.take(j) + seq![x] + s.skip(j) =~= seq![x]);
    } else if j == 0 {
        assert(s.take(0) + seq![x] + s.skip(0) =~= seq![x] + s);
    } else {
        assert forall|k: int| 0 <= k < j - 1 implies !ranks_below(#[trigger] s.drop_first()[k], x) by {
            assert(s.drop_first()[k] == s[k + 1]);
        }
        lemma_insert_ranked(s.drop_first(), x, j - 1);
        assert(seq![s[0]] + (s.drop_first().take(j - 1) + seq![x] + s.drop_first().skip(j - 1)) =~= s.take(j) + seq![x] + s.skip(j));
    }
}

/// The styled spans of a row.
pub open spec fn row_spans(r: WhoRowView, use_color: bool) -> Seq<(Seq<char>, Style)> {
    if use_color {
        seq![
            ("│"@, spec_plain_style()),
            (centered(r.0, 14), spec_color_bold(Color::Green)),
            ("│"@, spec_plain_style()),
            (centered(r.1, 14), spec_color(Color::Rgb(200, 150, 255))),
            ("│"@, spec_plain_style()),
            (centered(r.2, 10), spec_color(Color::Yellow)),
            ("│"@, spec_plain_style()),
            (r.3, if r.3 == "战斗中"@ { spec_color_bold(Color::Red) } else if r.3 == "打坐中"@ { spec_color(Color::Cyan) } else { spec_color(Color::Green) }),
            ("│\n"@, spec_plain_style()),
        ]
    } else {
        seq![("│"@ + centered(r.0, 14) + "│"@ + centered(r.1, 14) + "│"@ + centered(r.2, 10) + "│"@ + centered(r.3, 10) + "│\n"@, spec_plain_style())]
    }
}

/// The spans of all rows.
pub open spec fn rows_spans(rows: Seq<WhoRowView>, use_color: bool) -> Seq<(Seq<char>, Style)>
    decreases rows.len(),
{
    if rows.len() == 0 { seq![] } else { rows_spans(rows.drop_last(), use_color) + row_spans(rows.last(), use_color) }
}

/// A rule of the table between three kinds of corner.
pub open spec fn table_rule(l: Seq<char>, m: Seq<char>, r: Seq<char>) -> Seq<char> {
    l + repeated("─"@, 16) + m + repeated("─"@, 16) + m + repeated("─"@, 12) + m + repeated("─"@, 12) + r
}

pub open spec fn frame_style() -> Style {
    spec_color(Color::Rgb(180, 100, 200))
}

/// The list of players online: a title, the table head, a row per player
/// (or a line saying there is none), and the count.
pub open spec fn who_list_msgs(rows: Seq<WhoRowView>, use_color: bool) -> Seq<(Seq<char>, Style)> {
    let head = table_rule("┌"@, "┬"@, "┐"@);
    let sep = table_rule("├"@, "┼"@, "┤"@);
    let foot = table_rule("└"@, "┴"@, "┘"@);
    let count_line = "  ★ 当前共有 "@ + decimal(rows.len()) + "位 道友在线 ★ "@;
    let empty = "暂无其他玩家在线"@;
    if use_color {
        seq![
            ("【 仙 界 同 道 】"@, spec_color_bold(Color::Magenta)), ("\n"@, spec_plain_style()),
            (head, frame_style()), ("\n"@, spec_plain_style()),
            ("│"@, spec_plain_style()), (centered("姓 名"@, 14), spec_color(Color::White)),
            ("│"@, spec_plain_style()), (centered("境 界"@, 14), spec_color(Color::White)),
            ("│"@, spec_plain_style()), (centered("宗 门"@, 10), spec_color(Color::White)),
            ("│"@, spec_plain_style()), (centered("当前状态"@, 10), spec_color(Color::White)),
            ("│\n"@, spec_plain_style()),
            (sep, frame_style()), ("\n"@, spec_plain_style()),
        ] + (if rows.len() == 0 {
            seq![
                ("│"@ + spaces(14) + "│"@ + spaces(14) + "│"@, spec_plain_style()),
                (centered(empty, 10), spec_color(Color::Yellow)),
                ("│"@ + spaces(10) + "│\n"@, spec_plain_style()),
            ]
        } else {
            rows_spans(rows, true)
        }) + seq![
            (foot, frame_style()), ("\n"@, spec_plain_style()),
            (count_line, spec_color_bold(Color::White)),
        ]
    } else {
        seq![
            ("【 仙 界 同 道 】\n"@, spec_plain_style()),
            (head + "\n"@, spec_plain_style()),
            ("│"@ + centered("姓 名"@, 14) + "│"@ + centered("境 界"@, 14) + "│"@ + centered("宗 门"@, 10) + "│"@ + centered("当前状态"@, 10) + "│\n"@, spec_plain_style()),
            (sep + "\n"@, spec_plain_style()),
        ] + (if rows.len() == 0 {
            seq![("│"@ + spaces(14) + "│"@ + spaces(14) + "│"@ + centered(empty, 10) + "│"@ + spaces(10) + "│\n"@, spec_plain_style())]
        } else {
            rows_spans(rows, false)
        }) + seq![
            (foot + "\n"@, spec_plain_style()),
            (count_line, spec_plain_style()),
        ]
    }
}


/// The view of a row.
pub open spec fn row_view(r: (String, String, String, String)) -> WhoRowView {
    (r.0@, r.1@, r.2@, r.3@)
}

pub open spec fn rows_view(v: Seq<(String, String, String, String)>) -> Seq<WhoRowView> {
    v.map_values(|r: (String, String, String, String)| row_view(r))
}

/// Whether NPCs of prototype `pid` fight.
fn npc_is_hostile(world: &WorldState, pid: u32) -> (r: bool)
    ensures
        r == npc_hostile(world.static_data.npc_prototypes@, pid),
{
    match world.static_data.npc_prototype(pid) {
        Some(p) => same_text(p.ai.as_str(), "monster") || !contains_text(&p.flags, "friendly"),
        None => false,
    }
}

/// Whether a hostile NPC in the player's room targets the player.
fn player_in_combat(world: &WorldState, pid: u64) -> (r: bool)
    ensures
        r == in_combat(*world, pid),
{
    let room = match world.get_player_room_id(pid) {
        Some(r) => r,
        None => String::new(),
    };
    assert(room@ == room_of(*world, pid));
    let ns = world.get_npcs_in_room(room.as_str());
    let mut i: usize = 0;
    while i < ns.len()
        invariant
            i <= ns.len(),
            ns@ == npcs_in(world.dynamic_data.npcs@, room_of(*world, pid)),
            forall|k: int| 0 <= k < i ==> !(npc_hostile(world.static_data.npc_prototypes@, #[trigger] ns@[k].prototype_id)
                && ns@[k].combat_target == Some(pid)),
        decreases ns.len() - i,
    {
        if npc_is_hostile(world, ns[i].prototype_id) && ns[i].combat_target == Some(pid) {
            return true;
        }
        i = i + 1;
    }
    false
}

/// The rows of the logged-in players, in session order.
fn collect_rows(state: &GameState) -> (r: Vec<(String, String, String, String)>)
    ensures
        rows_view(r@) == who_rows(state.world_state, state.player_sessions@),
{
    let ss = &state.player_sessions;
    let mut out: Vec<(String, String, String, String)> = Vec::new();
    let mut i: usize = 0;
    while i < ss.len()
        invariant
            i <= ss.len(),
            ss@ == state.player_sessions@,
            rows_view(out@) == who_rows(state.world_state, ss@.take(i as int)),
        decreases ss.len() - i,
    {
        proof {
            assert(ss@.take(i + 1).drop_last() =~= ss@.take(i as int));
            assert(ss@.take(i + 1).last() == ss@[i as int]);
        }
        let ghost out0 = out@;
        if ss[i].user_id.is_some() {
            let p = &ss[i].player;
            let sect = match &p.sect {
                Some(x) => x.clone(),
                None => "无".to_string(),
            };
            let status = if player_in_combat(&state.world_state, p.id) {
                "战斗中".to_string()
            } else if p.is_resting {
                "打坐中".to_string()
            } else {
                "游历中".to_string()
            };
            out.push((p.name.clone(), realm_level_to_name(p.realm_level, p.realm_sub_level), sect, status));
            proof { assert(rows_view(out@) =~= rows_view(out0).push(who_row(state.world_state, *p))); }
        }
        i = i + 1;
    }
    proof { assert(ss@.take(i as int) =~= ss@); }
    out
}

/// Whether row `a` ranks below row `b`.
fn row_ranks_below(a: &(String, String, String, String), b: &(String, String, String, String)) -> (r: bool)
    ensures
        r == ranks_below(row_view(*a), row_view(*b)),
{
    let ka = parse_realm_level(a.1.as_str());
    let kb = parse_realm_level(b.1.as_str());
    ka.0 < kb.0 || (ka.0 == kb.0 && ka.1 < kb.1)
}

/// The rows ranked from high to low, rows of equal rank in their order.
fn rank_rows(rows: Vec<(String, String, String, String)>) -> (r: Vec<(String, String, String, String)>)
    ensures
        rows_view(r@) == ranked(rows_view(rows@)),
{
    let mut out: Vec<(String, String, String, String)> = Vec::new();
    let total = rows.len();
    let ghost all = rows@;
    let mut src = rows;
    let mut k: usize = 0;
    while src.len() > 0
        invariant
            k + src@.len() == total,
            total == all.len(),
            src@ =~= all.skip(k as int),
            rows_view(out@) == ranked(rows_view(all.take(k as int))),
        decreases src.len(),
    {
        let x = src.remove(0);
        let ghost xs = rows_view(out@);
        let mut j: usize = 0;
        while j < out.len() && !row_ranks_below(&out[j], &x)
            invariant
                j <= out.len(),
                xs == rows_view(out@),
                forall|m: int| 0 <= m < j ==> !ranks_below(#[trigger] xs[m], row_view(x)),
            decreases out.len() - j,
        {
            j = j + 1;
        }
        proof {
            lemma_insert_ranked(xs, row_view(x), j as int);
            assert(rows_view(all.take(k + 1)).drop_last() =~= rows_view(all.take(k as int)));
            assert(rows_view(all.take(k + 1)).last() == row_view(x));
        }
        out.insert(j, x);
        proof {
            assert(rows_view(out@) =~= xs.take(j as int) + seq![row_view(x)] + xs.skip(j as int));
        }
        k = k + 1;
    }
    proof { assert(all.take(k as int) =~= all); }
    out
}


/// A rule of the table.
fn table_rule_text(l: &str, m: &str, r: &str) -> (t: String)
    ensures
        t@ == table_rule(l@, m@, r@),
{
    let mut t = l.to_string();
    t.append(repeat_text("─", 16).as_str());
    t.append(m);
    t.append(repeat_text("─", 16).as_str());
    t.append(m);
    t.append(repeat_text("─", 12).as_str());
    t.append(m);
    t.append(repeat_text("─", 12).as_str());
    t.append(r);
    t
}

/// Appends a table row.
fn push_row(out: &mut Text, r: &(String, String, String, String), use_color: bool)
    ensures
        final(out)@ == old(out)@ + row_spans(row_view(*r), use_color),
{
    let ghost start = out@;
    if use_color {
        out.push_plain("│");
        out.push_string(pad_to_width(r.0.as_str(), 14), color_bold(Color::Green));
        out.push_plain("│");
        out.push_string(pad_to_width(r.1.as_str(), 14), color(Color::Rgb(200, 150, 255)));
        out.push_plain("│");
        out.push_string(pad_to_width(r.2.as_str(), 10), color(Color::Yellow));
        out.push_plain("│");
        let st = if same_text(r.3.as_str(), "战斗中") {
            color_bold(Color::Red)
        } else if same_text(r.3.as_str(), "打坐中") {
            color(Color::Cyan)
        } else {
            color(Color::Green)
        };
        out.push(r.3.as_str(), st);
        out.push_plain("│\n");
    } else {
        let mut line = "│".to_string();
        line.append(pad_to_width(r.0.as_str(), 14).as_str());
        line.append("│");
        line.append(pad_to_width(r.1.as_str(), 14).as_str());
        line.append("│");
        line.append(pad_to_width(r.2.as_str(), 10).as_str());
        line.append("│");
        line.append(pad_to_width(r.3.as_str(), 10).as_str());
        line.append("│\n");
        out.push_string(line, plain_style());
    }
    assert(out@ =~= start + row_spans(row_view(*r), use_color));
}

/// The list of players online, ranked from the highest realm down.
pub fn generate_who_list(state: &GameState, use_color: bool) -> (out: Text)
    ensures
        out@ == who_list_msgs(ranked(who_rows(state.world_state, state.player_sessions@)), use_color),
{
    let rows = rank_rows(collect_rows(state));
    let ghost rv = rows_view(rows@);
    let head = table_rule_text("┌", "┬", "┐");
    let sep = table_rule_text("├", "┼", "┤");
    let foot = table_rule_text("└", "┴", "┘");
    let mut out = Text::new();
    if use_color {
        out.push("【 仙 界 同 道 】", color_bold(Color::Magenta));
        out.push_plain("\n");
        out.push_string(head, color(Color::Rgb(180, 100, 200)));
        out.push_plain("\n");
        out.push_plain("│");
        out.push_string(pad_to_width("姓 名", 14), color(Color::White));
        out.push_plain("│");
        out.push_string(pad_to_width("境 界", 14), color(Color::White));
        out.push_plain("│");
        out.push_string(pad_to_width("宗 门", 10), color(Color::White));
        out.push_plain("│");
        out.push_string(pad_to_width("当前状态", 10), color(Color::White));
        out.push_plain("│\n");
        out.push_string(sep, color(Color::Rgb(180, 100, 200)));
        out.push_plain("\n");
    } else {
        out.push_plain("【 仙 界 同 道 】\n");
        let mut h = head;
        h.append("\n");
        out.push_string(h, plain_style());
        let mut line = "│".to_string();
        line.append(pad_to_width("姓 名", 14).as_str());
        line.append("│");
        line.append(pad_to_width("境 界", 14).as_str());
        line.append("│");
        line.append(pad_to_width("宗 门", 10).as_str());
        line.append("│");
        line.append(pad_to_width("当前状态", 10).as_str());
        line.append("│\n");
        out.push_string(line, plain_style());
        let mut sp = sep;
        sp.append("\n");
        out.push_string(sp, plain_style());
    }
    let ghost top = out@;
    if rows.len() == 0 {
        let mut a = "│".to_string();
        write_spaces(&mut a, 14);
        a.append("│");
        write_spaces(&mut a, 14);
        a.append("│");
        let mut b = "│".to_string();
        write_spaces(&mut b, 10);
        b.append("│\n");
        assert(a@ =~= "│"@ + spaces(14) + "│"@ + spaces(14) + "│"@);
        assert(b@ =~= "│"@ + spaces(10) + "│\n"@);
        if use_color {
            out.push_string(a, plain_style());
            out.push_string(pad_to_width("暂无其他玩家在线", 10), color(Color::Yellow));
            out.push_string(b, plain_style());
        } else {
            a.append(pad_to_width("暂无其他玩家在线", 10).as_str());
            a.append(b.as_str());
            assert(a@ =~= "│"@ + spaces(14) + "│"@ + spaces(14) + "│"@ + centered("暂无其他玩家在线"@, 10) + "│"@ + spaces(10) + "│\n"@);
            out.push_string(a, plain_style());
        }
        assert(rows_view(rows@).len() == 0);
    } else {
        let mut i: usize = 0;
        while i < rows.len()
            invariant
                i <= rows.len(),
                rv == rows_view(rows@),
                out@ == top + rows_spans(rv.take(i as int), use_color),
            decreases rows.len() - i,
        {
            proof {
                assert(rv.take(i + 1).drop_last() =~= rv.take(i as int));
                assert(rv.take(i + 1).last() == row_view(rows@[i as int]));
            }
            push_row(&mut out, &rows[i], use_color);
            i = i + 1;
        }
        proof { assert(rv.take(i as int) =~= rv); }
        assert(out@ == top + rows_spans(rv, use_color));
        assert(rv.len() != 0);
    }
    let ghost body = out@;
    let mut count = "  ★ 当前共有 ".to_string();
    count.append(u64_text(rows.len() as u64).as_str());
    count.append("位 道友在线 ★ ");
    if use_color {
        out.push_string(foot, color(Color::Rgb(180, 100, 200)));
        out.push_plain("\n");
        out.push_string(count, color_bold(Color::White));
    } else {
        let mut f = foot;
        f.append("\n");
        out.push_string(f, plain_style());
        out.push_string(count, plain_style());
    }
    proof {
        let head = table_rule("┌"@, "┬"@, "┐"@);
        let sep = table_rule("├"@, "┼"@, "┤"@);
        let foot = table_rule("└"@, "┴"@, "┘"@);
        let count_line = "  ★ 当前共有 "@ + decimal(rv.len()) + "位 道友在线 ★ "@;
        let empty = "暂无其他玩家在线"@;
        assert(rv.len() == rows@.len());
        let mid: Seq<(Seq<char>, Style)> = if rv.len() == 0 {
            if use_color {
                seq![
                    ("│"@ + spaces(14) + "│"@ + spaces(14) + "│"@, spec_plain_style()),
                    (centered(empty, 10), spec_color(Color::Yellow)),
                    ("│"@ + spaces(10) + "│\n"@, spec_plain_style()),
                ]
            } else {
                seq![("│"@ + spaces(14) + "│"@ + spaces(14) + "│"@ + centered(empty, 10) + "│"@ + spaces(10) + "│\n"@, spec_plain_style())]
            }
        } else {
            rows_spans(rv, use_color)
        };
        if rv.len() == 0 {
            if use_color {
                assert(body =~= top + seq![
                    ("│"@ + spaces(14) + "│"@ + spaces(14) + "│"@, spec_plain_style()),
                    (centered(empty, 10), spec_color(Color::Yellow)),
                    ("│"@ + spaces(10) + "│\n"@, spec_plain_style()),
                ]);
            } else {
                assert(body =~= top + seq![("│"@ + spaces(14) + "│"@ + spaces(14) + "│"@ + centered(empty, 10) + "│"@ + spaces(10) + "│\n"@, spec_plain_style())]);
            }
        }
        assert(body =~= top + mid);
        if use_color {
            assert(top =~= seq![
                ("【 仙 界 同 道 】"@, spec_color_bold(Color::Magenta)), ("\n"@, spec_plain_style()),
                (head, frame_style()), ("\n"@, spec_plain_style()),
                ("│"@, spec_plain_style()), (centered("姓 名"@, 14), spec_color(Color::White)),
                ("│"@, spec_plain_style()), (centered("境 界"@, 14), spec_color(Color::White)),
                ("│"@, spec_plain_style()), (centered("宗 门"@, 10), spec_color(Color::White)),
                ("│"@, spec_plain_style()), (centered("当前状态"@, 10), spec_color(Color::White)),
                ("│\n"@, spec_plain_style()),
                (sep, frame_style()), ("\n"@, spec_plain_style()),
            ]);
            assert(out@ =~= body + seq![(foot, frame_style()), ("\n"@, spec_plain_style()), (count_line, spec_color_bold(Color::White))]);
        } else {
            assert(top =~= seq![
                ("【 仙 界 同 道 】\n"@, spec_plain_style()),
                (head + "\n"@, spec_plain_style()),
                ("│"@ + centered("姓 名"@, 14) + "│"@ + centered("境 界"@, 14) + "│"@ + centered("宗 门"@, 10) + "│"@ + centered("当前状态"@, 10) + "│\n"@, spec_plain_style()),
                (sep + "\n"@, spec_plain_style()),
            ]);
            assert(out@ =~= body + seq![(foot + "\n"@, spec_plain_style()), (count_line, spec_plain_style())]);
        }
        assert(out@ =~= who_list_msgs(rv, use_color));
    }
    out
}

/// The welcome banner.
pub open spec fn welcome_msgs() -> Seq<(Seq<char>, Style)> {
    let pink = spec_color(Color::Rgb(255, 105, 180));
    let purple = spec_color(Color::Rgb(218, 112, 214));
    let white = spec_color(Color::Rgb(255, 255, 255));
    let rule = "━━━━━━━━━━━━━━━━━━━━━━━━━━━━━━━━━━━━━━"@;
    seq![
        ("      "@, spec_plain_style()), ("✧･ﾟ: *✧･ﾟ:*"@, pink), ("  "@, spec_plain_style()),
        ("ଘ(◕‿◕✿)ଓ"@, purple), ("  "@, spec_plain_style()), ("*:･ﾟ✧*:･ﾟ✧"@, pink),
        ("\n    "@, spec_plain_style()), (rule, purple),
        ("\n       "@, spec_plain_style()), ("(つ◕ヮ◕)つ"@, pink), (" "@, spec_plain_style()),
        ("⚔️  剑 灵 少 女 の 招 待  ⚔️"@, Style { color: Some(Color::Rgb(255, 255, 255)), bold: true }),
        ("\n    "@, spec_plain_style()), (rule, purple),
        ("\n      "@, spec_plain_style()),
        ("“欧尼酱！快握紧这把灵剑，一起踏上登仙之路吧~”"@, Style { color: Some(Color::Rgb(255, 105, 180)), bold: true }),
        ("\n\n             "@, spec_plain_style()),
        ("✦"@, purple), ("  "@, spec_plain_style()), ("✧"@, pink), ("  "@, spec_plain_style()),
        ("(ﾉ◕ヮ◕)ﾉ*:･ﾟ✧"@, white), ("  "@, spec_plain_style()), ("✧"@, pink), ("  "@, spec_plain_style()),
        ("✦"@, purple),
        ("\n\n"@, spec_plain_style()),
    ]
}

/// The welcome banner shown at login.
pub fn build_welcome_message() -> (out: Text)
    ensures
        out@ == welcome_msgs(),
{
    let pink = color(Color::Rgb(255, 105, 180));
    let purple = color(Color::Rgb(218, 112, 214));
    let white = color(Color::Rgb(255, 255, 255));
    let rule = "━━━━━━━━━━━━━━━━━━━━━━━━━━━━━━━━━━━━━━";
    let mut out = Text::new();
    out.push_plain("      ");
    out.push("✧･ﾟ: *✧･ﾟ:*", pink);
    out.push_plain("  ");
    out.push("ଘ(◕‿◕✿)ଓ", purple);
    out.push_plain("  ");
    out.push("*:･ﾟ✧*:･ﾟ✧", pink);
    out.push_plain("\n    ");
    out.push(rule, purple);
    out.push_plain("\n       ");
    out.push("(つ◕ヮ◕)つ", pink);
    out.push_plain(" ");
    out.push("⚔️  剑 灵 少 女 の 招 待  ⚔️", Style { color: Some(Color::Rgb(255, 255, 255)), bold: true });
    out.push_plain("\n    ");
    out.push(rule, purple);
    out.push_plain("\n      ");
    out.push("“欧尼酱！快握紧这把灵剑，一起踏上登仙之路吧~”", Style { color: Some(Color::Rgb(255, 105, 180)), bold: true });
    out.push_plain("\n\n             ");
    out.push("✦", purple);
    out.push_plain("  ");
    out.push("✧", pink);
    out.push_plain("  ");
    out.push("(ﾉ◕ヮ◕)ﾉ*:･ﾟ✧", white);
    out.push_plain("  ");
    out.push("✧", pink);
    out.push_plain("  ");
    out.push("✦", purple);
    out.push_plain("\n\n");
    assert(out@ =~= welcome_msgs());
    out
}

} // verus!
