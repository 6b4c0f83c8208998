//! The world configuration file: the realms and two settings with defaults.

use vstd::prelude::*;

verus! {

/// A realm of cultivation and the level that it takes.
pub struct Realm {
    pub name: String,
    pub level_required: u32,
}

/// The world configuration: the realms, the length of a combat round, and
/// the prefix shown before player names.
pub struct WorldConfig {
    pub realms: Vec<Realm>,
    pub combat_tick_ms: u64,
    pub player_display_prefix: String,
}

/// The length of a combat round when the file names none: 500 ms.
pub fn default_combat_tick_ms() -> (r: u64)
    ensures
        r == 500,
{
    500
}

/// The player prefix when the file names none: 修士.
pub fn default_player_display_prefix() -> (r: String)
    ensures
        r@ == "修士"@,
{
    "修士".to_string()
}

} // verus!
