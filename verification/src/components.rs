use vstd::prelude::*;
use crate::map::{idx_ok, spec_xy_idx, GameMap};

verus! {

/// Where an entity stands on the map.
#[derive(Clone, Copy, Debug, PartialEq, Eq, Structural)]
pub struct Position {
    pub x: i32,
    pub y: i32,
}

/// Marks an entity that can move.
#[derive(Clone, Copy, Debug, PartialEq, Eq, Structural)]
pub struct Movement {}

/// Marks the entity the player controls.
#[derive(Clone, Copy, Debug, PartialEq, Eq, Structural)]
pub struct Player {}

/// Marks a monster.
#[derive(Clone, Copy, Debug, PartialEq, Eq, Structural)]
pub struct Monster {}

/// The name an entity is shown with.
#[derive(Debug)]
pub struct EntityName {
    pub name: String,
}

/// What an entity sees: the positions in view, how far it sees, and whether
/// the view must be computed again.
#[derive(Debug)]
pub struct FieldOfView {
    pub visuble_tiles: Vec<Position>,
    pub range: i32,
    pub dirty: bool,
}

impl Position {
    pub fn get_pos(&self) -> (p: (i32, i32))
        ensures
            p == (self.x, self.y),
    {
        (self.x, self.y)
    }

    /// The index of this position in the map's tile vectors.
    pub fn get_idx(&self, map: &GameMap) -> (idx: usize)
        requires
            idx_ok(self.x as int, self.y as int),
        ensures
            idx == spec_xy_idx(self.x as int, self.y as int),
    {
        map.xy_idx(self.x, self.y)
    }
}

} // verus!
