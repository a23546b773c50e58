//! The world model: tiles, rooms, the room sequence, and the dungeon
//! generator.

pub mod generator;
pub mod room;
pub mod types;

pub use crate::tile::{Direction, DoorState, Tile};
pub use self::generator::{
    GenerateError,
    calculate_room_size, calculate_room_size_from_intensity, determine_room_type,
    determine_room_type_from_events, generate_dungeon, generate_dungeon_from_calendar,
    generate_room, generate_room_from_events, place_connections,
};
pub use self::room::Room;
pub use self::types::{RoomType, World};
