//! Tests for the game state machine: death, victory, transitions, energy
//! accounting and the enemy sweep.

use chrono::{Datelike, NaiveDate};
use penumbra::combat::PlayerAction;
use penumbra::entity::{Enemy, EnemyType, Player, PlayerClass};
use penumbra::game::GameState;
use penumbra::git::{CommitData, FileCategories};
use penumbra::world::{Room, RoomType, Tile, World};
use rand::SeedableRng;
use rand_chacha::ChaCha8Rng;

fn day0() -> i32 {
    NaiveDate::from_ymd_opt(2026, 1, 1).unwrap().num_days_from_ce()
}

fn make_commit(msg: &str, lines: u32) -> CommitData {
    CommitData {
        hash: format!("hash_{}", lines),
        day: day0(),
        message: msg.to_string(),
        insertions: lines,
        deletions: 0,
        files_changed: 1,
        author: "Test".to_string(),
        is_merge: false,
        file_categories: FileCategories::default(),
    }
}

fn make_test_room(id: usize, enemies: bool, with_exit: bool) -> Room {
    let mut room = Room::new(id, 7, 7, RoomType::Normal, day0());

    for x in 0..7 {
        room.set_tile(x, 0, Tile::Wall);
        room.set_tile(x, 6, Tile::Wall);
    }
    for y in 0..7 {
        room.set_tile(0, y, Tile::Wall);
        room.set_tile(6, y, Tile::Wall);
    }

    if with_exit {
        room.set_tile(5, 3, Tile::Exit);
    }

    if enemies {
        room.enemies.push(Enemy::new(EnemyType::Bug, 3, 3, "test"));
    }

    room
}

// === Death / victory tests ===

#[test]
fn game_starts_not_over() {
    let commits = vec![make_commit("Test", 50)];
    let state = GameState::new(commits, 42);
    assert!(!state.game_over);
    assert!(!state.victory);
}

#[test]
fn game_over_on_player_death() {
    let mut room = Room::new(0, 7, 7, RoomType::Normal, day0());
    room.enemies.push(Enemy::new(EnemyType::MergeConflict, 2, 2, "test"));

    let world = World::new(vec![room]);
    let mut player = Player::new(PlayerClass::Wanderer);
    player.x = 1;
    player.y = 2;
    player.hp = 1;

    let mut state = GameState::new(vec![make_commit("Test", 50)], 42);
    state.world = world;
    state.player = player;

    let _events = state.process_enemies();

    assert!(state.game_over);
    assert!(!state.victory);
}

#[test]
fn victory_on_last_room_exit() {
    let mut room = make_test_room(0, false, true);
    room.cleared = true;

    let world = World::new(vec![room]);
    let mut player = Player::new(PlayerClass::Wanderer);
    player.x = 5;
    player.y = 3;

    let mut state = GameState::new(vec![make_commit("Test", 50)], 42);
    state.world = world;
    state.player = player;
    state.update_fov();

    let transitioned = state.check_room_exit();

    assert!(transitioned);
    assert!(state.game_over);
    assert!(state.victory);
}

#[test]
fn game_tracks_turns() {
    let commits = vec![make_commit("Test", 50)];
    let mut state = GameState::new(commits, 42);

    assert_eq!(state.turn, 0);

    state.process_action(PlayerAction::Wait);
    assert_eq!(state.turn, 1);

    state.process_action(PlayerAction::Wait);
    assert_eq!(state.turn, 2);
}

#[test]
fn rejected_attack_changes_nothing() {
    // a player with energy 4 cannot afford an attack (cost 5); the action
    // is rejected outright, energy stays, and no turn is taken
    let commits = vec![make_commit("Test", 50)];
    let mut state = GameState::new(commits, 42);
    state.player.energy = 4;

    let events = state.process_action(PlayerAction::Attack(penumbra::world::Direction::North));

    assert!(events.is_empty());
    assert_eq!(state.player.energy, 4);
    assert_eq!(state.turn, 0);
}

// === Room transition tests ===

#[test]
fn cannot_exit_with_enemies() {
    let mut room = make_test_room(0, true, true);
    room.cleared = false;

    let world = World::new(vec![room, make_test_room(1, false, false)]);
    let mut player = Player::new(PlayerClass::Wanderer);
    player.x = 5;
    player.y = 3;

    let mut state = GameState::new(vec![make_commit("Test", 50)], 42);
    state.world = world;
    state.player = player;

    let transitioned = state.check_room_exit();

    assert!(!transitioned);
    assert_eq!(state.world.current_room, 0);
}

#[test]
fn can_exit_when_cleared() {
    let mut room1 = make_test_room(0, false, true);
    room1.cleared = true;
    let room2 = make_test_room(1, false, false);

    let world = World::new(vec![room1, room2]);
    let mut player = Player::new(PlayerClass::Wanderer);
    player.x = 5;
    player.y = 3;

    let mut state = GameState::new(vec![make_commit("Test", 50)], 42);
    state.world = world;
    state.player = player;

    let transitioned = state.check_room_exit();

    assert!(transitioned);
    assert_eq!(state.world.current_room, 1);
}

#[test]
fn player_positioned_at_entrance_after_transition() {
    let mut room1 = make_test_room(0, false, true);
    room1.cleared = true;
    let room2 = make_test_room(1, false, false);

    let world = World::new(vec![room1, room2]);
    let mut player = Player::new(PlayerClass::Wanderer);
    player.x = 5;
    player.y = 3;

    let mut state = GameState::new(vec![make_commit("Test", 50)], 42);
    state.world = world;
    state.player = player;

    state.check_room_exit();

    assert_eq!(state.player.x, 1);
    assert_eq!(state.player.y, 3);
}

#[test]
fn fov_updates_after_transition() {
    let mut room1 = make_test_room(0, false, true);
    room1.cleared = true;
    let room2 = make_test_room(1, false, false);

    let world = World::new(vec![room1, room2]);
    let mut player = Player::new(PlayerClass::Wanderer);
    player.x = 5;
    player.y = 3;

    let mut state = GameState::new(vec![make_commit("Test", 50)], 42);
    state.world = world;
    state.player = player;
    state.update_fov();

    state.check_room_exit();

    assert!(!state.visible_tiles.is_empty());
    assert!(state.visible_tiles.contains(&(1, 3)));
}

#[test]
fn transition_logs_room_info() {
    let mut room1 = make_test_room(0, false, true);
    room1.cleared = true;
    let room2 = make_test_room(1, false, false);

    let world = World::new(vec![room1, room2]);
    let mut player = Player::new(PlayerClass::Wanderer);
    player.x = 5;
    player.y = 3;

    let mut state = GameState::new(vec![make_commit("Test", 50)], 42);
    state.world = world;
    state.player = player;
    state.messages.clear();

    state.check_room_exit();

    assert!(state.messages.iter().any(|m| m.contains("enter")));
}

#[test]
fn room_marked_cleared_when_enemies_defeated() {
    let mut room = Room::new(0, 7, 7, RoomType::Normal, day0());
    room.enemies.push(Enemy::new(EnemyType::Bug, 2, 3, "test"));

    assert!(!room.is_cleared());

    room.enemies.clear();
    room.cleared = true;

    assert!(room.is_cleared());
}

// === Sanctuary tests ===

fn make_sanctuary_room(id: usize) -> Room {
    let mut room = Room::new(id, 7, 7, RoomType::Sanctuary, day0());

    for x in 0..7 {
        room.set_tile(x, 0, Tile::Wall);
        room.set_tile(x, 6, Tile::Wall);
    }
    for y in 0..7 {
        room.set_tile(0, y, Tile::Wall);
        room.set_tile(6, y, Tile::Wall);
    }

    room
}

#[test]
fn sanctuary_regenerates_energy() {
    let room = make_sanctuary_room(0);
    let world = World::new(vec![room]);

    let mut player = Player::new(PlayerClass::Wanderer);
    player.x = 3;
    player.y = 3;
    player.energy = 50;

    let mut state = GameState::new(vec![make_commit("Test", 50)], 42);
    state.world = world;
    state.player = player;

    state.process_action(PlayerAction::Wait);

    // +2 from the wait, +5 more from the sanctuary
    assert!(state.player.energy > 52);
}

#[test]
fn sanctuary_has_no_enemies() {
    let mut room = Room::new(0, 7, 7, RoomType::Sanctuary, day0());

    let commits = vec![
        make_commit("Test 1", 50),
        make_commit("Test 2", 50),
        make_commit("Test 3", 50),
    ];

    let mut rng = ChaCha8Rng::seed_from_u64(42);
    room.spawn_enemies(&commits, &mut rng);

    assert!(room.enemies.is_empty());
}

// === Class tests ===

#[test]
fn new_with_class_sets_class() {
    let commits = vec![make_commit("Fix bug", 50)];
    let state = GameState::new_with_class(commits, 42, Some(PlayerClass::CodeWarrior));
    assert_eq!(state.player.class, PlayerClass::CodeWarrior);
}

#[test]
fn class_auto_detection_wanderer() {
    let commits = vec![make_commit("Fix bug", 50)];
    let state = GameState::new_with_class(commits, 42, None);
    assert_eq!(state.player.class, PlayerClass::Wanderer);
}

#[test]
fn class_auto_detection_inbox_knight() {
    let commits = vec![
        make_commit("Add test for auth", 50),
        make_commit("Fix tests", 50),
        make_commit("Testing edge case", 50),
        make_commit("Fix bug", 50),
    ];
    let state = GameState::new_with_class(commits, 42, None);
    assert_eq!(state.player.class, PlayerClass::InboxKnight);
}

// === Movement and energy tests ===

#[test]
fn move_deducts_energy_and_moves() {
    let room = make_test_room(0, false, false);
    let world = World::new(vec![room]);
    let mut player = Player::new(PlayerClass::Wanderer);
    player.x = 2;
    player.y = 2;

    let mut state = GameState::new(vec![make_commit("Test", 50)], 42);
    state.world = world;
    state.player = player;

    state.process_action(PlayerAction::Move(1, 0));

    assert_eq!(state.player.x, 3);
    assert_eq!(state.player.y, 2);
    assert_eq!(state.player.energy, 99);
    assert_eq!(state.turn, 1);
}

#[test]
fn blocked_move_refunds_energy() {
    let room = make_test_room(0, false, false);
    let world = World::new(vec![room]);
    let mut player = Player::new(PlayerClass::Wanderer);
    player.x = 1;
    player.y = 1;

    let mut state = GameState::new(vec![make_commit("Test", 50)], 42);
    state.world = world;
    state.player = player;

    // west of (1,1) is the wall at (0,1)
    state.process_action(PlayerAction::Move(-1, 0));

    assert_eq!(state.player.x, 1);
    assert_eq!(state.player.y, 1);
    assert_eq!(state.player.energy, 100);
    assert_eq!(state.turn, 1);
}

#[test]
fn defend_sets_stance() {
    let commits = vec![make_commit("Test", 50)];
    let mut state = GameState::new(commits, 42);

    state.process_action(PlayerAction::Defend);

    assert!(state.player.defending);
    assert_eq!(state.player.energy, 97);
}

#[test]
fn attack_kill_awards_xp_and_clears_room() {
    let mut room = make_test_room(0, false, false);
    let mut weak = Enemy::new(EnemyType::MergeConflict, 3, 2, "test");
    weak.hp = 1;
    room.enemies.push(weak);

    let world = World::new(vec![room]);
    let mut player = Player::new(PlayerClass::Wanderer);
    player.x = 3;
    player.y = 3;
    player.focus = 1000; // never miss

    let mut state = GameState::new(vec![make_commit("Test", 50)], 42);
    state.world = world;
    state.player = player;

    state.process_action(PlayerAction::Attack(penumbra::world::Direction::North));

    assert!(state.world.rooms[0].enemies.is_empty());
    assert!(state.world.rooms[0].cleared);
    assert_eq!(state.player.xp, 50);
}

#[test]
fn use_item_out_of_range_is_noop() {
    let commits = vec![make_commit("Test", 50)];
    let mut state = GameState::new(commits, 42);

    state.process_action(PlayerAction::UseItem(3));

    assert_eq!(state.player.inventory.len(), 0);
    assert_eq!(state.player.energy, 100);
    assert_eq!(state.turn, 1);
}

#[test]
fn no_actions_after_game_over() {
    let commits = vec![make_commit("Test", 50)];
    let mut state = GameState::new(commits, 42);
    state.game_over = true;

    let events = state.process_action(PlayerAction::Wait);

    assert!(events.is_empty());
    assert_eq!(state.turn, 0);
}
