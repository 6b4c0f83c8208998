//! The item prototypes by number.

use vstd::prelude::*;
use std::collections::HashMap;
use crate::world::world_item::ItemPrototype;

verus! {

broadcast use vstd::std_specs::hash::group_hash_axioms;

/// The item prototypes, looked up by number.
pub struct ItemRegistry {
    prototypes: HashMap<u32, ItemPrototype>,
}

impl ItemRegistry {
    /// The prototypes by number, as a map.
    pub closed spec fn view_map(&self) -> Map<u32, ItemPrototype> {
        self.prototypes@
    }

    /// A registry of the given prototypes.
    pub fn new(prototypes: HashMap<u32, ItemPrototype>) -> (r: ItemRegistry)
        ensures
            r.view_map() == prototypes@,
    {
        ItemRegistry { prototypes }
    }

    /// The prototype with number `id`.
    pub fn get_prototype(&self, id: &u32) -> (r: Option<&ItemPrototype>)
        ensures
            match r {
                Some(p) => self.view_map().contains_key(*id) && *p == self.view_map()[*id],
                None => !self.view_map().contains_key(*id),
            },
    {
        self.prototypes.get(id)
    }
}

} // verus!
