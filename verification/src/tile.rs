//! Grid cell semantics: tile variants, walkability and vision blocking.

use vstd::prelude::*;

verus! {

/// Direction for doors, movement and attacks.
#[derive(Debug, Clone, Copy, PartialEq, Eq, Structural)]
pub enum Direction {
    North,
    South,
    East,
    West,
}

/// Door state (open or closed).
#[derive(Debug, Clone, Copy, PartialEq, Eq, Structural)]
pub enum DoorState {
    Closed,
    Open,
}

/// A single tile in the dungeon.
#[derive(Debug, Clone, Copy, PartialEq, Eq, Structural)]
pub enum Tile {
    Floor,
    Wall,
    Door(Direction, DoorState),
    Exit,
    Entrance,
    HealingZone,
}

/// Whether entities can stand on the tile: everything but walls and closed
/// doors is walkable.
pub open spec fn spec_walkable(t: Tile) -> bool {
    match t {
        Tile::Wall => false,
        Tile::Door(_, state) => state == DoorState::Open,
        _ => true,
    }
}

/// Whether the tile blocks vision: walls and closed doors do, nothing else.
pub open spec fn spec_blocking(t: Tile) -> bool {
    match t {
        Tile::Wall => true,
        Tile::Door(_, state) => state == DoorState::Closed,
        _ => false,
    }
}

impl Tile {
    /// Check if entities can walk on this tile.
    pub fn is_walkable(&self) -> (r: bool)
        ensures
            r == spec_walkable(*self),
    {
        match self {
            Tile::Door(_, DoorState::Closed) => false,
            Tile::Floor | Tile::Door(_, DoorState::Open) | Tile::Exit | Tile::Entrance
                | Tile::HealingZone => true,
            Tile::Wall => false,
        }
    }

    /// Check if this tile blocks vision.
    pub fn is_blocking(&self) -> (r: bool)
        ensures
            r == spec_blocking(*self),
    {
        match self {
            Tile::Wall | Tile::Door(_, DoorState::Closed) => true,
            _ => false,
        }
    }

    /// Get the ASCII symbol for this tile.
    pub fn symbol(&self) -> (c: char)
        ensures
            c == (match *self {
                Tile::Floor => '.',
                Tile::Wall => '#',
                Tile::Door(_, DoorState::Closed) => '+',
                Tile::Door(_, DoorState::Open) => '/',
                Tile::Exit => '>',
                Tile::Entrance => '<',
                Tile::HealingZone => '*',
            }),
    {
        match self {
            Tile::Floor => '.',
            Tile::Wall => '#',
            Tile::Door(_, DoorState::Closed) => '+',
            Tile::Door(_, DoorState::Open) => '/',
            Tile::Exit => '>',
            Tile::Entrance => '<',
            Tile::HealingZone => '*',
        }
    }

    /// Check if this is a door tile.
    pub fn is_door(&self) -> (r: bool)
        ensures
            r == (self matches Tile::Door(_, _)),
    {
        match self {
            Tile::Door(_, _) => true,
            _ => false,
        }
    }

    /// Toggle door state; any other tile is left unchanged.
    pub fn toggle_door(&mut self)
        ensures
            *final(self) == (match *old(self) {
                Tile::Door(dir, DoorState::Closed) => Tile::Door(dir, DoorState::Open),
                Tile::Door(dir, DoorState::Open) => Tile::Door(dir, DoorState::Closed),
                t => t,
            }),
    {
        if let Tile::Door(dir, state) = self {
            let toggled = match state {
                DoorState::Open => DoorState::Closed,
                DoorState::Closed => DoorState::Open,
            };
            *self = Tile::Door(*dir, toggled);
        }
    }
}

impl Direction {
    /// Get the opposite direction.
    pub fn opposite(&self) -> (r: Direction)
        ensures
            r == (match *self {
                Direction::North => Direction::South,
                Direction::South => Direction::North,
                Direction::East => Direction::West,
                Direction::West => Direction::East,
            }),
    {
        match self {
            Direction::North => Direction::South,
            Direction::South => Direction::North,
            Direction::East => Direction::West,
            Direction::West => Direction::East,
        }
    }

    /// Get the unit delta (dx, dy) for this direction; north is negative y.
    pub fn delta(&self) -> (r: (i32, i32))
        ensures
            r == (match *self {
                Direction::North => (0i32, -1i32),
                Direction::South => (0i32, 1i32),
                Direction::East => (1i32, 0i32),
                Direction::West => (-1i32, 0i32),
            }),
    {
        match self {
            Direction::North => (0, -1),
            Direction::South => (0, 1),
            Direction::East => (1, 0),
            Direction::West => (-1, 0),
        }
    }
}

} // verus!
