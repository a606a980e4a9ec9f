use sluuz::commands::ilog::rebase_path;

#[test]
fn at_repo_root_paths_pass_through() {
    assert_eq!(rebase_path(".env", ""), ".env");
    assert_eq!(rebase_path("src/main.rs", ""), "src/main.rs");
}

#[test]
fn subdir_paths_become_root_relative() {
    // `slu ilog .env` from PROD/ must look for PROD/.env, not <root>/.env.
    assert_eq!(rebase_path(".env", "PROD/"), "PROD/.env");
    assert_eq!(rebase_path("src/a.rs", "a/b/"), "a/b/src/a.rs");
}

#[test]
fn dot_and_dotdot_segments_fold() {
    assert_eq!(rebase_path("./.env", "PROD/"), "PROD/.env");
    assert_eq!(rebase_path("../.env", "PROD/"), ".env");
    assert_eq!(rebase_path("../other/x", "a/b/"), "a/other/x");
}

#[test]
fn absolute_paths_are_left_to_git() {
    assert_eq!(rebase_path("/tmp/x", "PROD/"), "/tmp/x");
}

#[test]
fn climbing_past_the_root_stops_there() {
    assert_eq!(rebase_path("../../x", "a/"), "x");
    assert_eq!(rebase_path("a//b/./c", "p/"), "p/a/b/c");
}
