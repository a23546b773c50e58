//! Room types and the world container.

use vstd::prelude::*;
use super::room::Room;

verus! {

/// Type of room, derived from the day's activity records.
#[derive(Debug, Clone, Copy, PartialEq, Eq, Structural)]
pub enum RoomType {
    /// Standard room.
    Normal,
    /// Test-heavy day: a safe healing room.
    Sanctuary,
    /// Config-heavy day: extra loot.
    Treasure,
    /// A special (merge / all-hands) day: boss encounter.
    Boss,
}

impl RoomType {
    /// Get the display name for this room type.
    pub fn name(&self) -> (r: &'static str)
        ensures
            r@ == (match *self {
                RoomType::Normal => "Room"@,
                RoomType::Sanctuary => "Sanctuary"@,
                RoomType::Treasure => "Treasury"@,
                RoomType::Boss => "Boss Chamber"@,
            }),
    {
        match self {
            RoomType::Normal => "Room",
            RoomType::Sanctuary => "Sanctuary",
            RoomType::Treasure => "Treasury",
            RoomType::Boss => "Boss Chamber",
        }
    }
}

/// The complete game world: the rooms in chronological order, and the index
/// of the room the player is in.
#[derive(Debug)]
pub struct World {
    pub rooms: Vec<Room>,
    pub current_room: usize,
}

impl World {
    /// Create a new world over the given rooms, starting in the first.
    pub fn new(rooms: Vec<Room>) -> (w: World)
        ensures
            w.rooms == rooms,
            w.current_room == 0,
    {
        World { rooms, current_room: 0 }
    }

    /// Get the current room, if the index is in range.
    pub fn current(&self) -> (r: Option<&Room>)
        ensures
            self.current_room < self.rooms@.len()
                ==> (r matches Some(room) && *room == self.rooms@[self.current_room as int]),
            self.current_room >= self.rooms@.len() ==> r is None,
    {
        if self.current_room < self.rooms.len() {
            Some(&self.rooms[self.current_room])
        } else {
            None
        }
    }

    /// Advance to the next room; fails in the last room.
    pub fn next_room(&mut self) -> (advanced: bool)
        ensures
            advanced == (old(self).current_room + 1 < old(self).rooms@.len()),
            advanced ==> *final(self) == (World {
                current_room: (old(self).current_room + 1) as usize,
                ..*old(self)
            }),
            !advanced ==> *final(self) == *old(self),
    {
        let len = self.rooms.len();
        if self.current_room < usize::MAX && self.current_room + 1 < len {
            self.current_room = self.current_room + 1;
            true
        } else {
            false
        }
    }

    /// Check if the current room is the last one.
    pub fn is_last_room(&self) -> (r: bool)
        ensures
            r == (self.current_room + 1 >= self.rooms@.len()),
    {
        let len = self.rooms.len();
        self.current_room >= usize::MAX - 1 || self.current_room + 1 >= len
    }
}

} // verus!
