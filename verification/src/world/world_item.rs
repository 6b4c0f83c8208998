//! Item prototypes.

use vstd::prelude::*;

verus! {

/// The template of an item.
pub struct ItemPrototype {
    pub id: u32,
    pub name: String,
    pub description: String,
}

} // verus!
