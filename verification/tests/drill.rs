use sluuz::app::branches::Scope as BranchScope;
use sluuz::app::repos::Scope as RepoScope;
use sluuz::app::{branch_scope, esc, repo_scope, Feed, Level, Pane, Sel};
use sluuz::git::load::Branch;
use sluuz::git::RepoStatus;

fn repo(dirty: usize, ahead: usize) -> RepoStatus {
    RepoStatus {
        name: "r".into(),
        path: "/r".into(),
        branch: "main".into(),
        has_upstream: true,
        dirty,
        ahead,
        behind: 0,
        origin: "github.com:o/r".into(),
    }
}

fn branch(remote: bool, upstream: bool, track: &str) -> Branch {
    Branch {
        is_head: false,
        remote,
        name: "b".into(),
        refname: "refs/heads/b".into(),
        rel: String::new(),
        author: String::new(),
        has_upstream: upstream,
        upstream: if upstream {
            "origin/b".into()
        } else {
            String::new()
        },
        track: track.into(),
    }
}

#[test]
fn esc_steps_back_one_level_at_a_time() {
    let start = Level::Repos;
    assert_eq!(Level::Diff.back(start), Some(Level::Commits));
    assert_eq!(Level::Commits.back(start), Some(Level::Branches));
    assert_eq!(Level::Branches.back(start), Some(Level::Repos));
    // Nothing above the repos level, so Esc there quits.
    assert_eq!(Level::Repos.back(start), None);
}

#[test]
fn the_variant_order_is_the_drill_order() {
    // Esc steps back only while the current level is deeper than the one the
    // app was entered at, which is this ordering.
    assert!(Level::Repos < Level::Branches);
    assert!(Level::Branches < Level::Commits);
    assert!(Level::Commits < Level::Diff);
}

#[test]
fn esc_quits_where_the_app_came_in() {
    assert_eq!(esc(Level::Commits, Level::Commits), None);
    assert_eq!(esc(Level::Diff, Level::Commits), Some(Level::Commits));
    assert_eq!(esc(Level::Commits, Level::Tags), Some(Level::Tags));
    assert_eq!(esc(Level::Tags, Level::Tags), None);
    assert_eq!(Level::Tags.depth(), 2);
}

#[test]
fn the_cursor_stops_at_both_ends() {
    let mut sel = Sel::default();
    sel.show(vec![0, 1]);
    assert!(!sel.step(false, 1), "already at the top");
    assert!(sel.step(true, 1));
    assert!(!sel.step(true, 1), "already at the bottom");
    assert_eq!(sel.cur, 1);
}

#[test]
fn an_empty_list_selects_nothing() {
    let mut sel = Sel::default();
    sel.show(Vec::new());
    assert!(sel.is_empty());
    assert_eq!(sel.idx(), None);
    assert!(!sel.step(true, 1));
}

#[test]
fn the_cursor_indexes_the_underlying_list_not_the_filtered_one() {
    let mut sel = Sel::default();
    sel.show(vec![3, 7]); // a scope that kept entries 3 and 7
    sel.step(true, 1);
    assert_eq!(sel.idx(), Some(7));
}

#[test]
fn a_held_key_stops_at_both_ends() {
    let mut sel = Sel::default();
    sel.show((0..10).collect());
    assert!(sel.step(true, 4));
    assert_eq!(sel.cur, 4);
    assert!(sel.step(true, 99), "a step past the bottom still moves");
    assert_eq!(sel.cur, 9);
    assert!(!sel.step(true, 4), "already on the last row");
    assert!(sel.step(false, 99));
    assert_eq!(sel.cur, 0);
    assert!(!sel.step(false, 1), "already on the first row");
}

#[test]
fn an_empty_list_cannot_be_stepped() {
    let mut sel = Sel::default();
    sel.show(Vec::new());
    assert!(!sel.step(true, 5));
    assert_eq!(sel.idx(), None);
}

#[test]
fn rows_arriving_in_the_background_leave_the_cursor_alone() {
    let mut sel = Sel::default();
    sel.show(vec![0, 1, 2]);
    sel.step(true, 1);
    sel.step(true, 1);
    assert_eq!(sel.idx(), Some(2));
    sel.append(vec![3, 4, 5]);
    assert_eq!(sel.idx(), Some(2), "the cursor stayed where it was put");
    assert_eq!(sel.len(), 6);
}

#[test]
fn the_first_rows_to_arrive_are_what_gets_selected() {
    let mut sel = Sel::default();
    sel.show(Vec::new());
    assert_eq!(sel.idx(), None);
    sel.append(vec![7, 8]);
    assert_eq!(sel.idx(), Some(7));
    assert_eq!(sel.selected, Some(0));
}

#[test]
fn the_scope_slider_stops_at_its_ends() {
    let mut sel = Sel::scoped(1);
    assert!(sel.slide(true, 3));
    assert!(!sel.slide(true, 3), "already on the last stop");
    assert_eq!(sel.scope, 2);
    assert!(sel.slide(false, 3));
}

#[test]
fn a_restored_row_takes_the_cursor() {
    let mut sel = Sel::default();
    sel.show(vec![4, 5, 6]);
    sel.restore = Some("b".to_string());
    sel.restored_at(2);
    assert_eq!(sel.idx(), Some(6));
    assert_eq!(sel.selected, Some(2));
    assert!(sel.restore.is_none());
}

#[test]
fn repo_scopes_split_dirty_from_unpushed() {
    assert!(RepoScope::Dirty.keeps(&repo(2, 0)));
    assert!(!RepoScope::Dirty.keeps(&repo(0, 2)));
    assert!(RepoScope::Unpushed.keeps(&repo(0, 2)));
    assert!(!RepoScope::Unpushed.keeps(&repo(2, 0)));
    assert!(RepoScope::All.keeps(&repo(0, 0)));
}

#[test]
fn branch_scopes_split_local_from_remote() {
    assert!(BranchScope::Local.keeps(&branch(false, true, "")));
    assert!(!BranchScope::Local.keeps(&branch(true, false, "")));
    assert!(BranchScope::Remote.keeps(&branch(true, false, "")));
}

#[test]
fn a_branch_counts_as_unpushed_when_no_remote_has_it() {
    assert!(branch(false, false, "").unpushed(), "never pushed");
    assert!(branch(false, true, "[gone]").unpushed(), "upstream deleted");
    assert!(branch(false, true, "[ahead 2]").unpushed(), "ahead of upstream");
    assert!(!branch(false, true, "").unpushed(), "in sync");
    assert!(!branch(true, false, "").unpushed(), "a remote branch is on a remote");
}

#[test]
fn push_state_reads_the_track_field() {
    assert_eq!(branch(false, false, "").status(), "no remote");
    assert_eq!(branch(false, true, "[gone]").status(), "gone");
    assert_eq!(branch(false, true, "[ahead 2]").status(), "↑2");
    assert_eq!(branch(false, true, "[behind 3]").status(), "↓3");
    assert_eq!(branch(false, true, "[ahead 2, behind 1]").status(), "↑2 ↓1");
    assert_eq!(branch(false, true, "").status(), "synced");
    assert_eq!(branch(true, false, "").status(), "");
}

#[test]
fn the_scope_flags_pick_their_tabs() {
    assert_eq!(repo_scope(true), 1);
    assert_eq!(repo_scope(false), 0);
    assert_eq!(branch_scope(false, true), 2);
    assert_eq!(branch_scope(false, false), 0);
    assert_eq!(branch_scope(true, true), 0);
    assert_eq!(RepoScope::at(repo_scope(true)).label(), "dirty");
    assert_eq!(BranchScope::at(branch_scope(false, true)).label(), "remote");
}

#[test]
fn a_feed_takes_only_its_newest_request() {
    let mut feed = Feed::default();
    let first = feed.issue(1000);
    let second = feed.issue(1010);
    assert!(!feed.accepts(first));
    assert!(feed.accepts(second));
    assert!(!feed.slow(1100));
    assert!(feed.slow(1130));
}

#[test]
fn the_filter_keys_name_their_pane() {
    assert_eq!(Pane::Top.sigil(), '/');
    assert_eq!(Pane::Bottom.sigil(), '?');
}
