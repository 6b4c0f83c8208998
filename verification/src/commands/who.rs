//! The `who` command.

use vstd::prelude::*;
use crate::game::{GameState, MessageView, ServerMessage};
use crate::ui::{generate_who_list, ranked, who_list_msgs, who_rows};

verus! {

/// The list of players online, in colour.
pub fn handle_who(state: &GameState) -> (m: ServerMessage)
    ensures
        m@ == MessageView::Description(who_list_msgs(ranked(who_rows(state.world_state, state.player_sessions@)), true)),
{
    ServerMessage::Description { payload: generate_who_list(state, true) }
}

} // verus!
