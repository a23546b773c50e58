//! Tests for the calendar record type, event classification, and the
//! calendar-driven generator.

use chrono::{Datelike, NaiveDate};
use penumbra::calendar::{group_by_date, EventCategory, EventData};
use penumbra::entity::EnemyType;
use penumbra::text::unescape_ics;
use penumbra::world::{
    calculate_room_size_from_intensity, determine_room_type_from_events,
    generate_dungeon_from_calendar, RoomType,
};

fn day(y: i32, m: u32, d: u32) -> i32 {
    NaiveDate::from_ymd_opt(y, m, d).unwrap().num_days_from_ce()
}

fn make_event(summary: &str, duration_minutes: u32, attendees: u32) -> EventData {
    EventData {
        uid: summary.to_string(),
        day: day(2026, 2, 15),
        summary: summary.to_string(),
        description: None,
        location: None,
        category: EventCategory::from_event_text(summary, None),
        duration_minutes,
        attendee_count: attendees,
    }
}

#[test]
fn test_unescape_ics() {
    assert_eq!(unescape_ics("Hello\\nWorld"), "Hello\nWorld");
    assert_eq!(unescape_ics("A\\,B\\;C"), "A,B;C");
}

#[test]
fn unescape_ics_backslashes() {
    assert_eq!(unescape_ics("A\\\\B"), "A\\B");
    assert_eq!(unescape_ics("plain text"), "plain text");
}

#[test]
fn test_event_category_detection() {
    assert_eq!(
        EventCategory::from_event_text("1:1 with Bob", None),
        EventCategory::OneOnOne
    );
    assert_eq!(
        EventCategory::from_event_text("All-Hands Meeting", None),
        EventCategory::AllHands
    );
    assert_eq!(
        EventCategory::from_event_text("Focus Time", None),
        EventCategory::FocusTime
    );
    assert_eq!(
        EventCategory::from_event_text("Lunch", None),
        EventCategory::Break
    );
    assert_eq!(
        EventCategory::from_event_text("Sprint Planning", None),
        EventCategory::Meeting
    );
}

#[test]
fn event_category_reads_description_too() {
    assert_eq!(
        EventCategory::from_event_text("Catch up", Some("weekly sync")),
        EventCategory::OneOnOne
    );
}

#[test]
fn test_event_intensity() {
    let event = make_event("Planning", 60, 5);
    // 60 minutes / 15 = 4, plus 4 attendees beyond the first
    assert_eq!(event.intensity(), 8);
}

#[test]
fn test_group_by_date() {
    let mut a = make_event("Meeting 1", 60, 2);
    a.day = day(2026, 2, 15);
    let mut b = make_event("Meeting 2", 60, 3);
    b.day = day(2026, 2, 15);

    let grouped = group_by_date(&vec![a, b]);
    assert_eq!(grouped.len(), 1);
    assert_eq!(grouped[0].0, day(2026, 2, 15));
    assert_eq!(grouped[0].1.len(), 2);
}

#[test]
fn test_room_size_from_intensity() {
    assert_eq!(calculate_room_size_from_intensity(2), (3, 3));
    assert_eq!(calculate_room_size_from_intensity(7), (5, 5));
    assert_eq!(calculate_room_size_from_intensity(15), (7, 7));
    assert_eq!(calculate_room_size_from_intensity(30), (9, 9));
}

#[test]
fn test_all_hands_creates_boss_room() {
    let events = vec![make_event("All-Hands Meeting", 60, 50)];
    assert_eq!(determine_room_type_from_events(&events), RoomType::Boss);
}

#[test]
fn test_large_meeting_creates_boss_room() {
    let events = vec![make_event("Sprint Planning", 90, 15)];
    assert_eq!(determine_room_type_from_events(&events), RoomType::Boss);
}

#[test]
fn test_focus_time_creates_sanctuary() {
    let events = vec![
        make_event("Focus Time", 120, 1),
        make_event("Deep Work", 60, 1),
    ];
    assert_eq!(determine_room_type_from_events(&events), RoomType::Sanctuary);
}

#[test]
fn test_one_on_ones_create_treasure() {
    let events = vec![
        make_event("1:1 with Bob", 30, 2),
        make_event("1:1 with Alice", 30, 2),
        make_event("Team Standup", 15, 5),
    ];
    assert_eq!(determine_room_type_from_events(&events), RoomType::Treasure);
}

#[test]
fn test_mixed_day_creates_normal() {
    let events = vec![
        make_event("Sprint Planning", 60, 8),
        make_event("Code Review", 30, 3),
        make_event("Standup", 15, 5),
    ];
    assert_eq!(determine_room_type_from_events(&events), RoomType::Normal);
}

#[test]
fn calendar_generation_rejects_empty_history() {
    let events: Vec<EventData> = Vec::new();
    let result = generate_dungeon_from_calendar(&events, 42);
    assert!(result.is_err());
}

#[test]
fn test_generate_dungeon_from_calendar() {
    let mut a = make_event("Planning", 60, 5);
    a.day = day(2026, 2, 15);
    let mut b = make_event("Catchup", 60, 2);
    b.day = day(2026, 2, 16);

    let world = generate_dungeon_from_calendar(&vec![a, b], 42).unwrap();
    assert_eq!(world.rooms.len(), 2);
}

#[test]
fn calendar_rooms_are_populated() {
    // an ordinary meeting day spawns encounters, like a commit day does
    let mut a = make_event("Planning", 60, 5);
    a.day = day(2026, 2, 15);

    let world = generate_dungeon_from_calendar(&vec![a], 42).unwrap();
    assert_eq!(world.rooms.len(), 1);
    assert_eq!(world.rooms[0].room_type, RoomType::Normal);
    assert!(!world.rooms[0].enemies.is_empty());
    assert!(!world.rooms[0].items.is_empty());
}

#[test]
fn calendar_all_hands_spawns_boss_class_enemy() {
    let mut a = make_event("All-Hands Meeting", 60, 50);
    a.day = day(2026, 2, 15);

    let world = generate_dungeon_from_calendar(&vec![a], 42).unwrap();
    assert_eq!(world.rooms[0].room_type, RoomType::Boss);
    assert_eq!(world.rooms[0].enemies[0].enemy_type, EnemyType::MergeConflict);
}
