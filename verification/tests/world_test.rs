//! Tests for the world module: tiles, rooms, the generator, and the
//! encounter populator.

use chrono::{Datelike, NaiveDate};
use rand::SeedableRng;
use rand_chacha::ChaCha8Rng;

use penumbra::entity::EnemyType;
use penumbra::git::{CommitData, FileCategories};
use penumbra::item::{ItemEffect, ItemType, Rarity};
use penumbra::world::{
    calculate_room_size, determine_room_type, generate_dungeon, Direction, DoorState, Room,
    RoomType, Tile, World,
};

fn day(y: i32, m: u32, d: u32) -> i32 {
    NaiveDate::from_ymd_opt(y, m, d).unwrap().num_days_from_ce()
}

fn make_commit(lines: u32, is_merge: bool, message: &str) -> CommitData {
    CommitData {
        hash: format!("hash_{}", message.len()),
        day: day(2026, 1, 1),
        message: message.to_string(),
        insertions: lines,
        deletions: 0,
        files_changed: 1,
        author: "Test".to_string(),
        is_merge,
        file_categories: FileCategories::default(),
    }
}

// === Tile tests ===

#[test]
fn tile_floor_is_walkable() {
    assert!(Tile::Floor.is_walkable());
}

#[test]
fn tile_floor_not_blocking() {
    assert!(!Tile::Floor.is_blocking());
}

#[test]
fn tile_wall_not_walkable() {
    assert!(!Tile::Wall.is_walkable());
}

#[test]
fn tile_wall_is_blocking() {
    assert!(Tile::Wall.is_blocking());
}

#[test]
fn tile_door_is_walkable() {
    assert!(Tile::Door(Direction::North, DoorState::Open).is_walkable());
    assert!(!Tile::Door(Direction::North, DoorState::Closed).is_walkable());
}

#[test]
fn tile_exit_is_walkable() {
    assert!(Tile::Exit.is_walkable());
}

#[test]
fn tile_entrance_is_walkable() {
    assert!(Tile::Entrance.is_walkable());
}

#[test]
fn tile_symbols_correct() {
    assert_eq!(Tile::Floor.symbol(), '.');
    assert_eq!(Tile::Wall.symbol(), '#');
    assert_eq!(Tile::Door(Direction::North, DoorState::Closed).symbol(), '+');
    assert_eq!(Tile::Door(Direction::North, DoorState::Open).symbol(), '/');
    assert_eq!(Tile::Exit.symbol(), '>');
    assert_eq!(Tile::Entrance.symbol(), '<');
}

#[test]
fn tile_toggle_door() {
    let mut t = Tile::Door(Direction::East, DoorState::Closed);
    t.toggle_door();
    assert_eq!(t, Tile::Door(Direction::East, DoorState::Open));
    t.toggle_door();
    assert_eq!(t, Tile::Door(Direction::East, DoorState::Closed));
    let mut f = Tile::Floor;
    f.toggle_door();
    assert_eq!(f, Tile::Floor);
}

#[test]
fn direction_opposite() {
    assert_eq!(Direction::North.opposite(), Direction::South);
    assert_eq!(Direction::South.opposite(), Direction::North);
    assert_eq!(Direction::East.opposite(), Direction::West);
    assert_eq!(Direction::West.opposite(), Direction::East);
}

#[test]
fn direction_delta() {
    assert_eq!(Direction::North.delta(), (0, -1));
    assert_eq!(Direction::South.delta(), (0, 1));
    assert_eq!(Direction::East.delta(), (1, 0));
    assert_eq!(Direction::West.delta(), (-1, 0));
}

#[test]
fn room_type_names() {
    assert_eq!(RoomType::Normal.name(), "Room");
    assert_eq!(RoomType::Sanctuary.name(), "Sanctuary");
    assert_eq!(RoomType::Treasure.name(), "Treasury");
    assert_eq!(RoomType::Boss.name(), "Boss Chamber");
}

// === Room tests ===

#[test]
fn room_new_creates_correct_dimensions() {
    let room = Room::new(0, 7, 7, RoomType::Normal, day(2026, 1, 1));
    assert_eq!(room.width, 7);
    assert_eq!(room.height, 7);
}

#[test]
fn room_new_fills_with_floor() {
    let room = Room::new(0, 5, 5, RoomType::Normal, day(2026, 1, 1));
    for y in 0..5 {
        for x in 0..5 {
            assert_eq!(*room.get_tile(x, y).unwrap(), Tile::Floor);
        }
    }
}

#[test]
fn room_is_walkable_returns_false_for_out_of_bounds() {
    let room = Room::new(0, 5, 5, RoomType::Normal, day(2026, 1, 1));
    assert!(!room.is_walkable(-1, 0));
    assert!(!room.is_walkable(0, -1));
    assert!(!room.is_walkable(5, 0));
    assert!(!room.is_walkable(0, 5));
}

#[test]
fn room_is_walkable_returns_true_for_floor() {
    let room = Room::new(0, 5, 5, RoomType::Normal, day(2026, 1, 1));
    assert!(room.is_walkable(2, 2));
}

#[test]
fn room_is_walkable_returns_false_for_wall() {
    let mut room = Room::new(0, 5, 5, RoomType::Normal, day(2026, 1, 1));
    room.set_tile(2, 2, Tile::Wall);
    assert!(!room.is_walkable(2, 2));
}

#[test]
fn room_get_tile_returns_none_for_out_of_bounds() {
    let room = Room::new(0, 5, 5, RoomType::Normal, day(2026, 1, 1));
    assert!(room.get_tile(-1, 0).is_none());
    assert!(room.get_tile(5, 5).is_none());
}

#[test]
fn room_set_tile_works() {
    let mut room = Room::new(0, 5, 5, RoomType::Normal, day(2026, 1, 1));
    room.set_tile(1, 1, Tile::Wall);
    assert_eq!(*room.get_tile(1, 1).unwrap(), Tile::Wall);
}

#[test]
fn room_stores_date() {
    let d = day(2026, 3, 14);
    let room = Room::new(0, 5, 5, RoomType::Normal, d);
    assert_eq!(room.source_day, d);
}

#[test]
fn room_is_cleared_when_no_enemies() {
    let room = Room::new(0, 5, 5, RoomType::Normal, day(2026, 1, 1));
    assert!(room.is_cleared());
}

// === Generator tests ===

#[test]
fn calculate_room_size_small() {
    assert_eq!(calculate_room_size(10), (3, 3));
}

#[test]
fn calculate_room_size_medium() {
    assert_eq!(calculate_room_size(30), (5, 5));
}

#[test]
fn calculate_room_size_large() {
    assert_eq!(calculate_room_size(100), (7, 7));
}

#[test]
fn calculate_room_size_huge() {
    assert_eq!(calculate_room_size(500), (9, 9));
}

#[test]
fn calculate_room_size_boundaries() {
    assert_eq!(calculate_room_size(19), (3, 3));
    assert_eq!(calculate_room_size(20), (5, 5));
    assert_eq!(calculate_room_size(49), (5, 5));
    assert_eq!(calculate_room_size(50), (7, 7));
    assert_eq!(calculate_room_size(199), (7, 7));
    assert_eq!(calculate_room_size(200), (9, 9));
}

#[test]
fn determine_room_type_boss_for_merge() {
    let commits = vec![make_commit(50, true, "Merge branch")];
    assert_eq!(determine_room_type(&commits), RoomType::Boss);
}

#[test]
fn determine_room_type_sanctuary_for_tests() {
    let commits = vec![
        make_commit(50, false, "Add unit test"),
        make_commit(50, false, "More test coverage"),
        make_commit(50, false, "Fix bug"),
    ];
    assert_eq!(determine_room_type(&commits), RoomType::Sanctuary);
}

#[test]
fn determine_room_type_treasure_for_config() {
    let commits = vec![
        make_commit(50, false, "Update config"),
        make_commit(50, false, "Tune settings"),
        make_commit(50, false, "Fix bug"),
    ];
    assert_eq!(determine_room_type(&commits), RoomType::Treasure);
}

#[test]
fn determine_room_type_normal_for_regular() {
    let commits = vec![
        make_commit(50, false, "Fix bug"),
        make_commit(50, false, "Add feature"),
    ];
    assert_eq!(determine_room_type(&commits), RoomType::Normal);
}

#[test]
fn boss_overrides_other_types() {
    let commits = vec![
        make_commit(50, false, "Add test"),
        make_commit(50, true, "Merge feature"),
    ];
    assert_eq!(determine_room_type(&commits), RoomType::Boss);
}

#[test]
fn determine_room_type_uses_file_categories() {
    let mut a = make_commit(50, false, "anything at all");
    a.file_categories = FileCategories {
        test_files: 3,
        config_files: 0,
        doc_files: 0,
        other_files: 1,
    };
    assert_eq!(determine_room_type(&vec![a]), RoomType::Sanctuary);

    let mut b = make_commit(50, false, "anything at all");
    b.file_categories = FileCategories {
        test_files: 0,
        config_files: 3,
        doc_files: 0,
        other_files: 1,
    };
    assert_eq!(determine_room_type(&vec![b]), RoomType::Treasure);
}

#[test]
fn generate_dungeon_rejects_empty_history() {
    let commits: Vec<CommitData> = Vec::new();
    let result = generate_dungeon(&commits, 12345);
    assert!(matches!(result, Err(penumbra::world::GenerateError::NoRecords)));
}

#[test]
fn generate_dungeon_creates_rooms() {
    let commits = vec![
        make_commit(50, false, "Change one"),
        make_commit(100, false, "Change two"),
    ];
    let world = generate_dungeon(&commits, 12345).unwrap();
    assert!(!world.rooms.is_empty());
}

#[test]
fn generate_dungeon_deterministic_with_seed() {
    let commits = vec![
        make_commit(50, false, "Change one"),
        make_commit(100, false, "Change two"),
    ];
    let world1 = generate_dungeon(&commits, 12345).unwrap();
    let world2 = generate_dungeon(&commits, 12345).unwrap();
    assert_eq!(world1.rooms.len(), world2.rooms.len());
    for (r1, r2) in world1.rooms.iter().zip(world2.rooms.iter()) {
        assert_eq!(r1.room_type, r2.room_type);
        assert_eq!(r1.width, r2.width);
        assert_eq!(r1.height, r2.height);
        for y in 0..r1.height as i32 {
            for x in 0..r1.width as i32 {
                assert_eq!(r1.get_tile(x, y), r2.get_tile(x, y));
            }
        }
    }
}

#[test]
fn two_day_history_scenario() {
    // day 1: one 10-line non-special change; day 2: one merge
    let mut one = make_commit(10, false, "fix bug");
    one.day = day(2026, 1, 1);
    let mut two = make_commit(300, true, "merge it");
    two.day = day(2026, 1, 2);
    let world = generate_dungeon(&vec![one, two], 7).unwrap();

    assert_eq!(world.rooms.len(), 2);
    assert_eq!(world.rooms[0].width, 3);
    assert_eq!(world.rooms[0].height, 3);
    assert_eq!(world.rooms[0].room_type, RoomType::Normal);
    assert_eq!(world.rooms[0].enemies.len(), 1);
    assert_eq!(world.rooms[0].enemies[0].enemy_type, EnemyType::Bug);
    assert_eq!(world.rooms[1].room_type, RoomType::Boss);
}

// === World tests ===

#[test]
fn world_current_room() {
    let rooms = vec![
        Room::new(0, 5, 5, RoomType::Normal, day(2026, 1, 1)),
        Room::new(1, 5, 5, RoomType::Normal, day(2026, 1, 1)),
    ];
    let world = World::new(rooms);
    assert_eq!(world.current_room, 0);
    assert!(world.current().is_some());
}

#[test]
fn world_next_room_advances() {
    let rooms = vec![
        Room::new(0, 5, 5, RoomType::Normal, day(2026, 1, 1)),
        Room::new(1, 5, 5, RoomType::Normal, day(2026, 1, 1)),
    ];
    let mut world = World::new(rooms);
    assert!(world.next_room());
    assert_eq!(world.current_room, 1);
}

#[test]
fn world_next_room_returns_false_at_end() {
    let rooms = vec![Room::new(0, 5, 5, RoomType::Normal, day(2026, 1, 1))];
    let mut world = World::new(rooms);
    assert!(!world.next_room());
}

#[test]
fn world_is_last_room() {
    let rooms = vec![
        Room::new(0, 5, 5, RoomType::Normal, day(2026, 1, 1)),
        Room::new(1, 5, 5, RoomType::Normal, day(2026, 1, 1)),
    ];
    let mut world = World::new(rooms);
    assert!(!world.is_last_room());
    world.next_room();
    assert!(world.is_last_room());
}

// === Enemy spawning tests ===

fn make_commit_typed(message: &str) -> CommitData {
    make_commit(50, false, message)
}

#[test]
fn spawn_enemies_creates_enemies() {
    let mut room = Room::new(0, 7, 7, RoomType::Normal, day(2026, 1, 1));
    let commits = vec![make_commit_typed("Fix bug"), make_commit_typed("Another fix")];
    let mut rng = ChaCha8Rng::seed_from_u64(42);
    room.spawn_enemies(&commits, &mut rng);
    assert!(!room.enemies.is_empty());
}

#[test]
fn spawn_enemies_respects_count_limit() {
    let mut room = Room::new(0, 5, 5, RoomType::Normal, day(2026, 1, 1));
    let commits: Vec<_> = (0..20)
        .map(|i| make_commit_typed(&format!("Change {}", i)))
        .collect();
    let mut rng = ChaCha8Rng::seed_from_u64(42);
    room.spawn_enemies(&commits, &mut rng);
    assert!(room.enemies.len() <= 6);
}

#[test]
fn spawn_enemies_bug_type_for_regular_commits() {
    let mut room = Room::new(0, 7, 7, RoomType::Normal, day(2026, 1, 1));
    let commits = vec![make_commit(5, false, "Fix something")];
    let mut rng = ChaCha8Rng::seed_from_u64(42);
    room.spawn_enemies(&commits, &mut rng);
    assert_eq!(room.enemies[0].enemy_type, EnemyType::Bug);
}

#[test]
fn spawn_enemies_merge_conflict_for_merge() {
    let mut room = Room::new(0, 7, 7, RoomType::Normal, day(2026, 1, 1));
    let commits = vec![make_commit(50, true, "Merge branch feature")];
    let mut rng = ChaCha8Rng::seed_from_u64(42);
    room.spawn_enemies(&commits, &mut rng);
    assert_eq!(room.enemies[0].enemy_type, EnemyType::MergeConflict);
}

#[test]
fn spawn_enemies_regression_for_revert() {
    let mut room = Room::new(0, 7, 7, RoomType::Normal, day(2026, 1, 1));
    let commits = vec![make_commit_typed("Revert bad change")];
    let mut rng = ChaCha8Rng::seed_from_u64(42);
    room.spawn_enemies(&commits, &mut rng);
    assert_eq!(room.enemies[0].enemy_type, EnemyType::Regression);
}

#[test]
fn spawn_enemies_tech_debt_for_refactor() {
    let mut room = Room::new(0, 7, 7, RoomType::Normal, day(2026, 1, 1));
    let commits = vec![make_commit_typed("Refactor auth module")];
    let mut rng = ChaCha8Rng::seed_from_u64(42);
    room.spawn_enemies(&commits, &mut rng);
    assert_eq!(room.enemies[0].enemy_type, EnemyType::TechDebt);
}

#[test]
fn spawn_enemies_tech_debt_for_large_commit() {
    let mut room = Room::new(0, 7, 7, RoomType::Normal, day(2026, 1, 1));
    let commits = vec![make_commit(20, false, "Grow the module")];
    let mut rng = ChaCha8Rng::seed_from_u64(42);
    room.spawn_enemies(&commits, &mut rng);
    assert_eq!(room.enemies[0].enemy_type, EnemyType::TechDebt);
}

#[test]
fn spawn_enemies_positions_on_walkable_tiles() {
    let mut room = Room::new(0, 7, 7, RoomType::Normal, day(2026, 1, 1));
    let commits = vec![make_commit_typed("Change one"), make_commit_typed("Change two")];
    let mut rng = ChaCha8Rng::seed_from_u64(42);
    room.spawn_enemies(&commits, &mut rng);
    assert!(!room.enemies.is_empty());
    for enemy in &room.enemies {
        assert!(room.is_walkable(enemy.x, enemy.y));
    }
}

#[test]
fn spawn_enemies_no_overlapping_positions() {
    let mut room = Room::new(0, 9, 9, RoomType::Normal, day(2026, 1, 1));
    let commits: Vec<_> = (0..5)
        .map(|i| make_commit_typed(&format!("Change {}", i)))
        .collect();
    let mut rng = ChaCha8Rng::seed_from_u64(42);
    room.spawn_enemies(&commits, &mut rng);

    let mut positions: Vec<_> = room.enemies.iter().map(|e| (e.x, e.y)).collect();
    positions.sort();
    let len_before = positions.len();
    positions.dedup();
    assert_eq!(len_before, positions.len());
}

#[test]
fn spawn_enemies_none_in_sanctuary() {
    let mut room = Room::new(0, 7, 7, RoomType::Sanctuary, day(2026, 1, 1));
    let commits = vec![make_commit_typed("Change one")];
    let mut rng = ChaCha8Rng::seed_from_u64(42);
    room.spawn_enemies(&commits, &mut rng);
    assert!(room.enemies.is_empty());
}

// === Item spawning tests ===

fn make_commit_lines(message: &str, lines: u32) -> CommitData {
    make_commit(lines, false, message)
}

#[test]
fn spawn_items_creates_items() {
    let mut room = Room::new(0, 7, 7, RoomType::Normal, day(2026, 1, 1));
    let commits = vec![make_commit_typed("Some change")];
    let mut rng = ChaCha8Rng::seed_from_u64(42);
    room.spawn_items(&commits, &mut rng);
    assert!(!room.items.is_empty());
}

#[test]
fn spawn_items_doc_commit_creates_scroll() {
    let mut room = Room::new(0, 7, 7, RoomType::Normal, day(2026, 1, 1));
    let commits = vec![make_commit_typed("Update documentation")];
    let mut rng = ChaCha8Rng::seed_from_u64(42);
    room.spawn_items(&commits, &mut rng);
    assert_eq!(room.items[0].item_type, ItemType::Scroll);
    assert!(matches!(room.items[0].effect, ItemEffect::RevealMap));
}

#[test]
fn spawn_items_test_commit_creates_health() {
    let mut room = Room::new(0, 7, 7, RoomType::Normal, day(2026, 1, 1));
    let commits = vec![make_commit_typed("Add test for login")];
    let mut rng = ChaCha8Rng::seed_from_u64(42);
    room.spawn_items(&commits, &mut rng);
    assert!(matches!(room.items[0].effect, ItemEffect::Heal(_)));
}

#[test]
fn spawn_items_config_commit_creates_buff() {
    let mut room = Room::new(0, 7, 7, RoomType::Normal, day(2026, 1, 1));
    let commits = vec![make_commit_typed("Update config file")];
    let mut rng = ChaCha8Rng::seed_from_u64(42);
    room.spawn_items(&commits, &mut rng);
    assert!(matches!(room.items[0].effect, ItemEffect::Buff(_, _, _)));
}

#[test]
fn spawn_items_treasure_room_gets_more() {
    let mut room = Room::new(0, 9, 9, RoomType::Treasure, day(2026, 1, 1));
    let commits: Vec<_> = (0..5)
        .map(|i| make_commit_typed(&format!("Change {}", i)))
        .collect();
    let mut rng = ChaCha8Rng::seed_from_u64(42);
    room.spawn_items(&commits, &mut rng);
    assert!(room.items.len() >= 2);
}

#[test]
fn spawn_items_rarity_scales_with_lines() {
    let mut room1 = Room::new(0, 7, 7, RoomType::Normal, day(2026, 1, 1));
    let commits1 = vec![make_commit_lines("Small fix", 30)];
    let mut rng = ChaCha8Rng::seed_from_u64(42);
    room1.spawn_items(&commits1, &mut rng);
    assert_eq!(room1.items[0].rarity, Rarity::Common);

    let mut room2 = Room::new(1, 7, 7, RoomType::Normal, day(2026, 1, 1));
    let commits2 = vec![make_commit_lines("Huge feature", 600)];
    let mut rng = ChaCha8Rng::seed_from_u64(42);
    room2.spawn_items(&commits2, &mut rng);
    assert_eq!(room2.items[0].rarity, Rarity::Legendary);
}

#[test]
fn spawn_items_positions_on_walkable_tiles() {
    let mut room = Room::new(0, 7, 7, RoomType::Normal, day(2026, 1, 1));
    let commits = vec![make_commit_typed("Change one")];
    let mut rng = ChaCha8Rng::seed_from_u64(42);
    room.spawn_items(&commits, &mut rng);
    assert!(!room.items.is_empty());
    for item in &room.items {
        assert!(room.is_walkable(item.x, item.y));
    }
}
