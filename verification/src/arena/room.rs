//! Rooms of the arena and their exits.

use vstd::prelude::*;

verus! {

/// What every room of the arena offers: an id, a name, a description and
/// its exits, each a direction with the id of the room it leads to.
pub trait Room {
    /// The room's id.
    spec fn id_of(&self) -> usize;
    /// The room's name.
    spec fn name_of(&self) -> Seq<char>;
    /// The room's description.
    spec fn description_of(&self) -> Seq<char>;
    /// The room's exits.
    spec fn exits_of(&self) -> Seq<(Seq<char>, usize)>;

    /// Returns the unique identifier for the room.
    fn get_id(&self) -> (r: usize)
        ensures
            r == self.id_of();

    /// Returns the name of the room.
    fn get_name(&self) -> (r: &str)
        ensures
            r@ == self.name_of();

    /// Returns the description a player sees upon entering or looking.
    fn get_description(&self) -> (r: &str)
        ensures
            r@ == self.description_of();

    /// Returns the exits: a direction and the id of the room it leads to.
    fn get_exits(&self) -> (r: &Vec<(String, usize)>)
        ensures
            exits_view(r@) == self.exits_of();
}

/// Exits seen as directions and room ids.
pub open spec fn exits_view(v: Seq<(String, usize)>) -> Seq<(Seq<char>, usize)> {
    v.map_values(|e: (String, usize)| (e.0@, e.1))
}

/// Whether no direction is listed twice.
pub open spec fn distinct_directions(v: Seq<(Seq<char>, usize)>) -> bool {
    forall|i: int, j: int| 0 <= i < j < v.len() ==> v[i].0 != v[j].0
}

/// A standard, simple room.
#[derive(Debug, Clone)]
pub struct BaseRoom {
    pub id: usize,
    pub name: String,
    pub description: String,
    pub exits: Vec<(String, usize)>,
}

impl BaseRoom {
    /// Whether no direction of the room is listed twice, as in a map keyed
    /// by direction.
    pub open spec fn wf(&self) -> bool {
        distinct_directions(exits_view(self.exits@))
    }
}

impl Room for BaseRoom {
    open spec fn id_of(&self) -> usize {
        self.id
    }

    open spec fn name_of(&self) -> Seq<char> {
        self.name@
    }

    open spec fn description_of(&self) -> Seq<char> {
        self.description@
    }

    open spec fn exits_of(&self) -> Seq<(Seq<char>, usize)> {
        exits_view(self.exits@)
    }

    fn get_id(&self) -> (r: usize) {
        self.id
    }

    fn get_name(&self) -> (r: &str) {
        self.name.as_str()
    }

    fn get_description(&self) -> (r: &str) {
        self.description.as_str()
    }

    fn get_exits(&self) -> (r: &Vec<(String, usize)>) {
        &self.exits
    }
}

} // verus!
