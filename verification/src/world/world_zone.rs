//! A zone: rooms by number.

use vstd::prelude::*;
use std::collections::HashMap;
use crate::world::room::Room;

verus! {

/// A zone and its rooms by number.
pub struct Zone {
    pub id: String,
    pub name: String,
    pub rooms: HashMap<u32, Room>,
}

} // verus!
