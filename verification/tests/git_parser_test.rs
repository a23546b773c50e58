//! Tests for the version-control record type and its helpers.

use chrono::{Datelike, NaiveDate};
use penumbra::git::{
    categorize_files, group_by_date, is_config_file, is_doc_file, is_test_file, CommitData,
    FileCategories,
};

fn day(y: i32, m: u32, d: u32) -> i32 {
    NaiveDate::from_ymd_opt(y, m, d).unwrap().num_days_from_ce()
}

fn make_commit(msg: &str, d: i32, insertions: u32, deletions: u32) -> CommitData {
    CommitData {
        hash: "abc".to_string(),
        day: d,
        message: msg.to_string(),
        insertions,
        deletions,
        files_changed: 5,
        author: "Test".to_string(),
        is_merge: false,
        file_categories: FileCategories::default(),
    }
}

#[test]
fn commit_data_lines_changed() {
    let commit = make_commit("test", day(2026, 1, 1), 100, 50);
    assert_eq!(commit.lines_changed(), 150);
}

#[test]
fn group_by_date_groups_correctly() {
    let commits = vec![
        make_commit("one", day(2026, 1, 1), 10, 0),
        make_commit("two", day(2026, 1, 1), 20, 0),
    ];
    let grouped = group_by_date(&commits);
    assert_eq!(grouped.len(), 1);
    assert_eq!(grouped[0].1.len(), 2);
}

#[test]
fn group_by_date_sorts_days_ascending() {
    let commits = vec![
        make_commit("late", day(2026, 1, 5), 10, 0),
        make_commit("early", day(2026, 1, 2), 20, 0),
        make_commit("late again", day(2026, 1, 5), 30, 0),
    ];
    let grouped = group_by_date(&commits);
    assert_eq!(grouped.len(), 2);
    assert_eq!(grouped[0].0, day(2026, 1, 2));
    assert_eq!(grouped[1].0, day(2026, 1, 5));
    assert_eq!(grouped[1].1.len(), 2);
    assert_eq!(grouped[1].1[0].message, "late");
}

#[test]
fn file_categories_detects_test_files() {
    let path = "tests/foo_test.rs";
    assert!(path.contains("test"));
}

#[test]
fn file_categories_detects_config_files() {
    let extensions = [".json", ".toml", ".yaml", ".yml", ".conf"];
    for ext in extensions {
        assert!(
            ext.ends_with("json")
                || ext.ends_with("toml")
                || ext.ends_with("yaml")
                || ext.ends_with("yml")
                || ext.ends_with("conf")
        );
    }
}

#[test]
fn file_categories_detects_doc_files() {
    let extensions = [".md", ".txt", ".rst"];
    for ext in extensions {
        assert!(ext.ends_with("md") || ext.ends_with("txt") || ext.ends_with("rst"));
    }
}

#[test]
fn path_classifiers_match_extensions() {
    assert!(is_test_file("tests/foo.rs"));
    assert!(is_test_file("src/auth_test.rs"));
    assert!(!is_test_file("src/main.rs"));

    assert!(is_config_file("app.json"));
    assert!(is_config_file("settings.toml"));
    assert!(is_config_file("ci.yaml"));
    assert!(!is_config_file("main.rs"));

    assert!(is_doc_file("notes.md"));
    assert!(is_doc_file("guide.txt"));
    assert!(!is_doc_file("main.rs"));
}

#[test]
fn categorize_files_counts_each_once() {
    let paths = vec![
        "tests/a.rs".to_string(),
        "config.json".to_string(),
        "guide.md".to_string(),
        "src/main.rs".to_string(),
        "src/auth.rs".to_string(),
    ];
    let cats = categorize_files(&paths);
    assert_eq!(cats.test_files, 1);
    assert_eq!(cats.config_files, 1);
    assert_eq!(cats.doc_files, 1);
    assert_eq!(cats.other_files, 2);
}
