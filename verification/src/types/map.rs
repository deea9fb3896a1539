//! The world and moves in it.

use vstd::prelude::*;

verus! {

/// Where a move ended.
#[derive(Debug)]
pub struct Destination {
    pub x: i32,
    pub y: i32,
    pub name: String,
}

impl Clone for Destination {
    fn clone(&self) -> (r: Self)
        ensures
            r == *self,
    {
        Destination { x: self.x, y: self.y, name: self.name.clone() }
    }
}

/// The body of a move.
#[derive(Debug)]
pub struct MoveBody {
    pub x: i32,
    pub y: i32,
}

impl Clone for MoveBody {
    fn clone(&self) -> (r: Self)
        ensures
            r == *self,
    {
        MoveBody { x: self.x, y: self.y }
    }
}

/// A condition on entering a tile.
#[derive(Debug)]
pub struct MapCondition {
    pub code: String,
    pub operator: String,
    pub value: i32,
}

impl Clone for MapCondition {
    fn clone(&self) -> (r: Self)
        ensures
            r == *self,
    {
        MapCondition { code: self.code.clone(), operator: self.operator.clone(), value: self.value }
    }
}

/// Who may enter a tile.
#[derive(Debug)]
pub struct MapAccess {
    pub access_type: String,
    pub conditions: Vec<MapCondition>,
}

/// What stands on a tile.
#[derive(Debug)]
pub struct MapContent {
    pub content_type: String,
    pub code: String,
}

impl Clone for MapContent {
    fn clone(&self) -> (r: Self)
        ensures
            r == *self,
    {
        MapContent { content_type: self.content_type.clone(), code: self.code.clone() }
    }
}

/// Where a tile leads.
#[derive(Debug)]
pub struct MapTransition {
    pub map_id: i32,
    pub x: i32,
    pub y: i32,
    pub layer: String,
    pub conditions: Vec<MapCondition>,
}

/// What can be done on a tile.
#[derive(Debug)]
pub struct MapInteractions {
    pub content: Option<MapContent>,
    pub transition: Option<MapTransition>,
}

/// A tile of the world.
#[derive(Debug)]
pub struct MapTile {
    pub map_id: i32,
    pub name: String,
    pub skin: String,
    pub x: i32,
    pub y: i32,
    pub layer: String,
    pub access: Option<MapAccess>,
    pub interactions: Option<MapInteractions>,
}

} // verus!
