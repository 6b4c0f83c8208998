//! The `look` command: the room, and the bounties of a quest board in it.

use vstd::prelude::*;
use vstd::string::*;
use crate::command::views_of;
use crate::game::{MessageView, ServerMessage};
use crate::styled::{Text, Style, Color, spec_plain_style, spec_color_bold, plain_style, color_bold, same_text,
    contains_text, list_has};
use crate::ui::{get_full_room_description, room_description, npc_names, item_names, joined_text, join_strings};
use crate::world::world_player::{Player, has_active_quest};
use crate::world::world_state::{WorldState, names_in_room, npcs_in, items_in};
use crate::world_model::Quest;
use crate::commands::quest::{board_in, has_board};

verus! {

/// The room as player `player_id` sees it.
pub open spec fn look_description(world: WorldState, player_id: u64, room: Seq<char>) -> Seq<(Seq<char>, Style)> {
    room_description(
        world.static_data.rooms.lookup(room),
        names_in_room(world.dynamic_data.players@, room, player_id),
        npc_names(npcs_in(world.dynamic_data.npcs@, room)),
        item_names(items_in(world.dynamic_data.room_items, room), world.static_data.item_prototypes@),
    )
}

/// The bounties a board offers a player: each kill quest the player has
/// neither finished nor taken, as `- [id] name`, in the order of the quests.
pub open spec fn bounties(qs: Seq<(String, Quest)>, p: Player) -> Seq<Seq<char>>
    decreases qs.len(),
{
    if qs.len() == 0 {
        seq![]
    } else {
        let prev = bounties(qs.drop_last(), p);
        let q = qs.last().1;
        if q.quest_type@ == "kill"@ && !list_has(p.completed_quests@, q.id@) && !has_active_quest(p.active_quests@, q.id@) {
            prev.push("- ["@ + q.id@ + "] "@ + q.name@)
        } else {
            prev
        }
    }
}

/// The board's notice as the `look` command shows it.
pub open spec fn board_notice(lines: Seq<Seq<char>>) -> Seq<(Seq<char>, Style)> {
    seq![
        ("\n  告示牌上贴着以下悬赏："@, spec_color_bold(Color::Yellow)),
        ("\n  "@ + joined_text(lines, "\n "@), spec_plain_style()),
        ("\n  输入 'accept <任务ID>' 即可接取."@, Style { color: Some(Color::White), bold: true }),
    ]
}

/// The bounty lines of the board for a player.
pub fn bounty_lines(world: &WorldState, player: &Player) -> (r: Vec<String>)
    ensures
        views_of(r@) == bounties(world.static_data.quests.entries@, *player),
{
    let qs = &world.static_data.quests.entries;
    let mut out: Vec<String> = Vec::new();
    let mut i: usize = 0;
    while i < qs.len()
        invariant
            i <= qs.len(),
            qs@ == world.static_data.quests.entries@,
            views_of(out@) == bounties(qs@.take(i as int), *player),
        decreases qs.len() - i,
    {
        proof {
            assert(qs@.take(i + 1).drop_last() =~= qs@.take(i as int));
            assert(qs@.take(i + 1).last() == qs@[i as int]);
        }
        let q = &qs[i].1;
        if same_text(q.quest_type.as_str(), "kill") && !contains_text(&player.completed_quests, q.id.as_str())
            && !player.has_quest(q.id.as_str()) {
            let mut line = "- [".to_string();
            line.append(q.id.as_str());
            line.append("] ");
            line.append(q.name.as_str());
            let ghost o0 = out@;
            out.push(line);
            proof { assert(views_of(out@) =~= views_of(o0).push(views_of(out@).last())); }
        }
        i = i + 1;
    }
    proof { assert(qs@.take(i as int) =~= qs@); }
    out
}

/// The room as player `player_id` sees it, with the other players, the
/// NPCs and the items in it.
pub fn describe_room_for(player_id: u64, current_room_id: &str, world: &WorldState) -> (t: Text)
    ensures
        t@ == look_description(*world, player_id, current_room_id@),
{
    let players = world.get_players_in_room(current_room_id, player_id);
    let npcs = world.get_npcs_in_room(current_room_id);
    let items = world.get_items_in_room(current_room_id);
    get_full_room_description(current_room_id, world, players, npcs, items)
}

/// Looking around: the room, or, where a quest board offers bounties to the
/// player, the board's notice in its place.
pub fn handle_look(player_id: u64, current_room_id: &str, world: &WorldState, player: &Player) -> (m: ServerMessage)
    ensures
        board_in(*world, current_room_id@) && bounties(world.static_data.quests.entries@, *player).len() > 0
            ==> m@ == MessageView::Info(board_notice(bounties(world.static_data.quests.entries@, *player))),
        !(board_in(*world, current_room_id@) && bounties(world.static_data.quests.entries@, *player).len() > 0)
            ==> m@ == MessageView::Description(look_description(*world, player_id, current_room_id@)),
{
    let desc = describe_room_for(player_id, current_room_id, world);
    if has_board(world, current_room_id) {
        let lines = bounty_lines(world, player);
        if lines.len() > 0 {
            let mut t = Text::new();
            t.push("\n  告示牌上贴着以下悬赏：", color_bold(Color::Yellow));
            let mut body = "\n  ".to_string();
            body.append(join_strings(&lines, "\n ").as_str());
            t.push_string(body, plain_style());
            t.push("\n  输入 'accept <任务ID>' 即可接取.", crate::styled::Style { color: Some(Color::White), bold: true });
            assert(t@ =~= board_notice(views_of(lines@)));
            return ServerMessage::Info { payload: t };
        }
    }
    ServerMessage::Description { payload: desc }
}

} // verus!
