use sluuz::app::repos::{relative_name, sync_report, SyncReport};

#[test]
fn a_repo_under_the_root_keeps_its_plain_name() {
    assert_eq!(relative_name("pg/hscroll", "pg"), "hscroll");
}

#[test]
fn a_nested_repo_is_named_by_its_path() {
    // Two `work` repos in one tree are only telling apart by where they sit.
    assert_eq!(relative_name("pg/itidy/work", "pg"), "itidy/work");
    assert_eq!(relative_name("pg/pushstate/work", "pg"), "pushstate/work");
}

#[test]
fn scanning_the_current_directory_drops_the_dot() {
    assert_eq!(relative_name("./crates/vibox", "."), "crates/vibox");
    assert_eq!(relative_name("./hscroll", "."), "hscroll");
}

#[test]
fn a_trailing_slash_on_the_root_changes_nothing() {
    assert_eq!(relative_name("/pg/crates/vibox", "/pg/"), "crates/vibox");
}

#[test]
fn a_path_outside_the_root_falls_back_to_its_name() {
    assert_eq!(relative_name("/elsewhere/vibox", "/pg"), "vibox");
}

#[test]
fn a_sync_that_worked_is_one_line() {
    let outcomes = vec![
        ("a".to_string(), Ok(2)),
        ("b".to_string(), Ok(0)),
        ("c".to_string(), Ok(1)),
    ];
    match sync_report(&outcomes, true) {
        SyncReport::Synced(t) => assert_eq!(t, "synced 3 repos; pulled 3 commits into 2 repos"),
        _ => panic!("every repo synced"),
    }
    match sync_report(&outcomes[1..2], true) {
        SyncReport::Synced(t) => assert_eq!(t, "synced 1 repo"),
        _ => panic!("the repo synced"),
    }
}

#[test]
fn a_sync_that_failed_names_each_repo() {
    let outcomes = vec![
        ("a".to_string(), Ok(2)),
        ("b".to_string(), Err("\n  fatal: no remote\nmore".to_string())),
    ];
    match sync_report(&outcomes, false) {
        SyncReport::Failed { title, body } => {
            assert_eq!(title, "1 of 2 repos did not sync");
            assert_eq!(body, "b: fatal: no remote");
        }
        _ => panic!("one repo failed"),
    }
}
