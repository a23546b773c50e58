//! Tests for the field-of-view engine.

use chrono::{Datelike, NaiveDate};
use penumbra::fov::{calculate_fov, is_visible, Unobstructed};
use penumbra::world::{Room, RoomType, Tile};

fn day0() -> i32 {
    NaiveDate::from_ymd_opt(2026, 1, 1).unwrap().num_days_from_ce()
}

fn sees(visible: &Vec<(i32, i32)>, p: (i32, i32)) -> bool {
    visible.contains(&p)
}

#[test]
fn player_position_always_visible() {
    let visible = calculate_fov((5, 5), 5, &Unobstructed);
    assert!(sees(&visible, (5, 5)));
}

#[test]
fn adjacent_tiles_visible() {
    let visible = calculate_fov((5, 5), 5, &Unobstructed);
    assert!(sees(&visible, (5, 4)));
    assert!(sees(&visible, (5, 6)));
    assert!(sees(&visible, (4, 5)));
    assert!(sees(&visible, (6, 5)));
}

#[test]
fn tiles_at_radius_visible() {
    let visible = calculate_fov((5, 5), 3, &Unobstructed);
    assert!(sees(&visible, (5, 2)));
    assert!(sees(&visible, (5, 8)));
    assert!(sees(&visible, (2, 5)));
    assert!(sees(&visible, (8, 5)));
}

#[test]
fn tiles_beyond_radius_not_visible() {
    let visible = calculate_fov((5, 5), 2, &Unobstructed);
    assert!(!sees(&visible, (5, 1)));
    assert!(!sees(&visible, (9, 5)));
}

#[test]
fn wall_blocks_tiles_behind() {
    // a wall one tile north of the origin, inside a large open room
    let mut room = Room::new(0, 11, 11, RoomType::Normal, day0());
    room.set_tile(5, 4, Tile::Wall);
    let visible = calculate_fov((5, 5), 5, &room);

    // the wall itself is visible, the tile straight behind it is not
    assert!(sees(&visible, (5, 4)));
    assert!(!sees(&visible, (5, 3)));
}

#[test]
fn empty_room_fully_visible() {
    let visible = calculate_fov((5, 5), 3, &Unobstructed);

    let mut count = 0;
    for y in 2..=8 {
        for x in 2..=8 {
            if sees(&visible, (x, y)) {
                count += 1;
            }
        }
    }
    assert!(count > 20);
}

#[test]
fn corridor_limits_visibility() {
    // an open north-south corridor along x == 5
    let mut room = Room::new(0, 11, 11, RoomType::Normal, day0());
    for y in 0..11 {
        for x in 0..11 {
            if x != 5 {
                room.set_tile(x, y, Tile::Wall);
            }
        }
    }
    let visible = calculate_fov((5, 5), 5, &room);

    assert!(sees(&visible, (5, 3)));
    assert!(sees(&visible, (5, 7)));
    assert!(!sees(&visible, (3, 3)));
}

#[test]
fn no_duplicates_in_visible_set() {
    let visible = calculate_fov((5, 5), 5, &Unobstructed);
    let mut sorted = visible.clone();
    sorted.sort();
    let len_before = sorted.len();
    sorted.dedup();
    assert_eq!(len_before, sorted.len());
}

#[test]
fn is_visible_same_point() {
    assert!(is_visible((5, 5), (5, 5), &Unobstructed));
}

#[test]
fn is_visible_open_field() {
    assert!(is_visible((5, 5), (5, 2), &Unobstructed));
    assert!(is_visible((0, 0), (7, 3), &Unobstructed));
}

#[test]
fn is_visible_blocked_by_wall() {
    let mut room = Room::new(0, 11, 11, RoomType::Normal, day0());
    room.set_tile(5, 4, Tile::Wall);
    assert!(!is_visible((5, 5), (5, 2), &room));
}

#[test]
fn fov_performance_large_room() {
    let start = std::time::Instant::now();
    let visible = calculate_fov((50, 50), 10, &Unobstructed);
    let elapsed = start.elapsed();

    assert!(!visible.is_empty());
    assert!(elapsed.as_millis() < 100);
}
