//! Tests for the meta-progression system and run records.

use penumbra::entity::PlayerClass;
use penumbra::game::{Progression, RunRecord, Upgrades};

#[test]
fn test_new_progression() {
    let prog = Progression::new();
    assert_eq!(prog.total_runs, 0);
    assert_eq!(prog.essence, 0);
    assert!(prog.unlocked_classes.iter().any(|c| c == "CodeWarrior"));
}

#[test]
fn test_complete_run_loss() {
    let mut prog = Progression::new();
    prog.complete_run(false, 10, 3, 50);

    assert_eq!(prog.total_runs, 1);
    assert_eq!(prog.victories, 0);
    assert_eq!(prog.total_kills, 10);
    assert_eq!(prog.total_rooms, 3);
    // 10 kills + 15 rooms = 25 essence
    assert_eq!(prog.essence, 25);
}

#[test]
fn test_complete_run_victory() {
    let mut prog = Progression::new();
    prog.complete_run(true, 20, 5, 100);

    assert_eq!(prog.total_runs, 1);
    assert_eq!(prog.victories, 1);
    // 20 kills + 25 rooms + 20 victory = 65 essence
    assert_eq!(prog.essence, 65);
    assert_eq!(prog.fastest_victory, Some(100));
}

#[test]
fn test_fastest_victory_tracking() {
    let mut prog = Progression::new();
    prog.complete_run(true, 10, 5, 100);
    assert_eq!(prog.fastest_victory, Some(100));

    prog.complete_run(true, 10, 5, 80);
    assert_eq!(prog.fastest_victory, Some(80));

    prog.complete_run(true, 10, 5, 90);
    assert_eq!(prog.fastest_victory, Some(80));
}

#[test]
fn test_upgrade_hp() {
    let mut prog = Progression::new();
    prog.essence = 100;

    assert!(prog.upgrade_hp());
    assert_eq!(prog.upgrades.hp_bonus, 1);
    assert_eq!(prog.upgrades.bonus_hp(), 5);
    assert_eq!(prog.essence, 90);

    assert!(prog.upgrade_hp());
    assert_eq!(prog.upgrades.hp_bonus, 2);
    assert_eq!(prog.upgrades.bonus_hp(), 10);
    assert_eq!(prog.essence, 65);
}

#[test]
fn test_upgrade_insufficient_essence() {
    let mut prog = Progression::new();
    prog.essence = 5;

    assert!(!prog.upgrade_hp());
    assert_eq!(prog.upgrades.hp_bonus, 0);
    assert_eq!(prog.essence, 5);
}

#[test]
fn test_upgrade_max_level() {
    let mut prog = Progression::new();
    prog.essence = 10000;
    prog.upgrades.hp_bonus = Upgrades::MAX_HP;

    assert!(!prog.upgrade_hp());
}

#[test]
fn test_upgrade_damage() {
    let mut prog = Progression::new();
    prog.essence = 100;

    assert!(prog.upgrade_damage());
    assert_eq!(prog.upgrades.damage_bonus, 1);
    assert_eq!(prog.upgrades.bonus_damage(), 1);
}

#[test]
fn test_upgrade_energy() {
    let mut prog = Progression::new();
    prog.essence = 100;

    assert!(prog.upgrade_energy());
    assert_eq!(prog.upgrades.energy_bonus, 1);
    assert_eq!(prog.upgrades.bonus_energy(), 2);
}

#[test]
fn test_upgrade_loot_luck() {
    let mut prog = Progression::new();
    prog.essence = 100;

    assert!(prog.upgrade_loot_luck());
    assert_eq!(prog.upgrades.loot_luck, 1);
    assert_eq!(prog.upgrades.loot_luck_bonus(), 5);
}

#[test]
fn test_unlock_class() {
    let mut prog = Progression::new();
    prog.essence = 50;

    let class = PlayerClass::MeetingSurvivor;
    assert!(!prog.is_class_unlocked(&class));

    assert!(prog.unlock_class(&class, 30));
    assert!(prog.is_class_unlocked(&class));
    assert_eq!(prog.essence, 20);

    assert!(!prog.unlock_class(&class, 30));
}

#[test]
fn test_best_rooms_tracking() {
    let mut prog = Progression::new();
    prog.complete_run(false, 5, 3, 50);
    assert_eq!(prog.best_rooms, 3);

    prog.complete_run(false, 5, 5, 50);
    assert_eq!(prog.best_rooms, 5);

    prog.complete_run(false, 5, 4, 50);
    assert_eq!(prog.best_rooms, 5);
}

#[test]
fn test_upgrade_costs() {
    assert_eq!(Upgrades::cost(0), 10);
    assert_eq!(Upgrades::cost(1), 25);
    assert_eq!(Upgrades::cost(2), 50);
    assert_eq!(Upgrades::cost(3), 100);
    assert_eq!(Upgrades::cost(4), 200);
    assert_eq!(Upgrades::cost(5), 500);
}

// === Run record tests ===

#[test]
fn run_record_has_expected_fields() {
    let record = RunRecord {
        started_at: 1_700_000_000,
        ended_at: 1_700_000_900,
        victory: true,
        turns: 100,
        rooms_cleared: 5,
        enemies_killed: 10,
        final_level: 3,
        death_cause: None,
    };

    assert_eq!(record.turns, 100);
    assert_eq!(record.rooms_cleared, 5);
    assert!(record.victory);
    assert!(record.death_cause.is_none());
}

#[test]
fn run_record_with_death_cause() {
    let record = RunRecord {
        started_at: 1_700_000_000,
        ended_at: 1_700_000_500,
        victory: false,
        turns: 25,
        rooms_cleared: 1,
        enemies_killed: 0,
        final_level: 1,
        death_cause: Some("MergeConflict".to_string()),
    };

    assert!(!record.victory);
    assert_eq!(record.death_cause, Some("MergeConflict".to_string()));
}
