//! A turn-based dungeon-crawl engine whose world is derived deterministically
//! from an activity timeline (commits or calendar events) and a 64-bit seed.

pub mod calendar;
pub mod combat;
pub mod config;
pub mod entity;
pub mod fov;
pub mod game;
pub mod git;
pub mod item;
pub mod records;
pub mod rng;
pub mod text;
pub mod tile;
pub mod world;
