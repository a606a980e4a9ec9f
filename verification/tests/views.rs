use sluuz::app::diff::{pan_diff, reopen_step, row_label, scroll_diff, Reopen, Step};
use sluuz::app::ui::{
    actions, branch_mark, commits_label, count_text, filter_text, help, state_cell, state_flags,
    tag_commits_label, tag_mark, tags_label,
};
use sluuz::app::Level;
use sluuz::git::load::{Branch, TagState};
use sluuz::git::tags::RemoteTags;
use sluuz::git::RepoStatus;
use sluuz::tui::difftool::{outcome, tail, DiffTool, Handoff};
use sluuz::tui::highlight::{layout_diff, Row};
use sluuz::tui::input::Key;
use sluuz::tui::widgets::{Hue, Query};
use sluuz::tui::{note_left, poll_wait, FRAME_MS};

fn repo(dirty: usize, ahead: usize, behind: usize, up: bool) -> RepoStatus {
    RepoStatus {
        name: "r".into(),
        path: "/r".into(),
        branch: "main".into(),
        has_upstream: up,
        dirty,
        ahead,
        behind,
        origin: String::new(),
    }
}

fn branch(remote: bool, upstream: bool, track: &str) -> Branch {
    Branch {
        is_head: false,
        remote,
        name: "b".into(),
        refname: "refs/heads/b".into(),
        rel: String::new(),
        author: String::new(),
        has_upstream: upstream,
        upstream: if upstream { "origin/b".into() } else { String::new() },
        track: track.into(),
    }
}

#[test]
fn the_footer_offers_what_a_level_can_do() {
    assert_eq!(actions(Level::Repos, None, false), vec!["enter open", "s sync all", "S pull all", "K inspect", "r refresh"]);
    assert_eq!(
        actions(Level::Branches, Some(true), false),
        vec!["enter open", "d delete branch", "u undo", "s sync", "S pull", "K inspect", "r refresh"]
    );
    assert_eq!(
        actions(Level::Tags, Some(true), true),
        vec!["enter open", "d delete tag", "t track", "K inspect", "r refresh"]
    );
    assert_eq!(actions(Level::Commits, None, false), vec!["enter diff", "K inspect", "r refresh"]);
    assert_eq!(actions(Level::Diff, None, false), vec!["enter difftool", "K inspect"]);
}

#[test]
fn help_names_the_pane_below() {
    let h = help(Level::Repos);
    assert_eq!(h[2].1, "move in the branches below");
    assert_eq!(h[3], ("/ ?".to_string(), "filter this list / the branches".to_string()));
    assert_eq!(h.len(), 11);
    let c = help(Level::Commits);
    assert_eq!(c[4].1, "open the file's diff");
    assert_eq!(help(Level::Diff).len(), 6);
    assert_eq!(help(Level::Tags)[7], ("t".to_string(), "show push marks instantly".to_string()));
}

#[test]
fn a_pane_title_counts_where_the_cursor_is() {
    assert_eq!(count_text(false, false, 2, 12), "3/12");
    assert_eq!(count_text(false, true, 0, 4), "1/4…");
    assert_eq!(count_text(true, false, 0, 0), "(none)");
    assert_eq!(count_text(true, true, 0, 0), "…");
}

#[test]
fn a_filter_shows_its_caret_while_it_is_typed() {
    assert_eq!(filter_text(true, "fix", 1, '/'), Some("/f▏ix".to_string()));
    assert_eq!(filter_text(true, "fix", 9, '?'), Some("?fix▏".to_string()));
    assert_eq!(filter_text(false, "fix", 1, '/'), Some("/fix".to_string()));
    assert_eq!(filter_text(false, "", 0, '/'), None);
}

#[test]
fn the_tags_pane_says_what_the_remote_is_doing() {
    assert_eq!(tags_label(Some("origin"), None, false), ("tags vs origin".to_string(), Some("asking the remote…".to_string())));
    assert_eq!(tags_label(None, Some(&RemoteTags::NoRemote), false), ("tags".to_string(), Some("no remote".to_string())));
    let fresh = RemoteTags::Answered { remote: "origin".into(), tags: vec![], fresh: true };
    assert_eq!(tags_label(Some("origin"), Some(&fresh), false).1, None);
    let stale = RemoteTags::Answered { remote: "origin".into(), tags: vec![], fresh: false };
    assert_eq!(tags_label(Some("origin"), Some(&stale), true).1, Some("refreshing…".to_string()));
    assert_eq!(tags_label(Some("origin"), Some(&stale), false).1, Some("as of last fetch".to_string()));
}

#[test]
fn the_commits_pane_names_its_paths_or_range() {
    assert_eq!(commits_label(false, "", &[]), "commits");
    assert_eq!(commits_label(false, "", &["a.rs".to_string(), "b/".to_string()]), "commits · a.rs b/");
    assert_eq!(commits_label(true, "new in v2 since v1", &[]), "new in v2 since v1");
    assert_eq!(tag_commits_label(true, false, Some(TagState::Remote), "r"), "commits · not in this clone until a fetch");
    assert_eq!(tag_commits_label(true, true, Some(TagState::Remote), "r"), "r");
}

#[test]
fn state_flags_read_like_slu_repos() {
    let f = state_flags(&repo(2, 1, 3, true));
    assert_eq!(f, vec![("✚2 ".to_string(), Hue::Yellow), ("↑1 ".to_string(), Hue::Green), ("↓3".to_string(), Hue::Red)]);
    assert_eq!(state_flags(&repo(0, 0, 0, true)), vec![("✓ clean".to_string(), Hue::Green)]);
    assert_eq!(state_flags(&repo(0, 0, 0, false)), vec![("✓ clean (no upstream)".to_string(), Hue::Dim)]);
    assert_eq!(state_flags(&repo(0, 0, 5, true)), vec![("↓5".to_string(), Hue::Red)]);
}

#[test]
fn marks_say_what_a_row_is_waiting_on() {
    assert_eq!(branch_mark(&branch(true, true, "")), ("", Hue::Gray));
    assert_eq!(branch_mark(&branch(false, true, "[gone]")), ("⚑", Hue::Red));
    assert_eq!(branch_mark(&branch(false, true, "[ahead 2]")), ("↑", Hue::Yellow));
    assert_eq!(branch_mark(&branch(false, false, "")), ("↑", Hue::Yellow));
    assert_eq!(branch_mark(&branch(false, true, "")), ("", Hue::Gray));
    assert_eq!(tag_mark(TagState::Local), ("↑", Hue::Yellow));
    assert_eq!(tag_mark(TagState::Differs), ("⚑", Hue::Red));
    assert_eq!(tag_mark(TagState::Remote), ("↓", Hue::Magenta));
    assert_eq!(tag_mark(TagState::Pushed), ("", Hue::Gray));
    assert_eq!(state_cell(TagState::Unknown, true), ("  checking…  ".to_string(), true));
    assert_eq!(state_cell(TagState::Pushed, false), ("  pushed     ".to_string(), false));
}

#[test]
fn a_held_key_scrolls_and_pans_further() {
    assert_eq!(scroll_diff(10, true, 1), 13);
    assert_eq!(scroll_diff(10, true, 4), 22);
    assert_eq!(scroll_diff(2, false, 1), 0);
    assert_eq!(scroll_diff(65534, true, 8), 65535);
    assert_eq!(pan_diff(0, true, 1, 200, 80), 8);
    assert_eq!(pan_diff(115, true, 1, 200, 80), 120);
    assert_eq!(pan_diff(4, false, 1, 200, 80), 0);
}

#[test]
fn a_stash_is_named_by_its_message() {
    assert_eq!(row_label(false, "abc1234", "fix it"), "abc1234");
    assert_eq!(row_label(true, "abc1234", "WIP on main"), "`WIP on main`");
}

fn reopen(gone: bool) -> Reopen {
    Reopen { hash: "h1".into(), label: "abc".into(), path: "src/a.rs".into(), row: 4, gone }
}

#[test]
fn a_reopened_diff_waits_for_its_commit_and_files() {
    let paths = vec!["README".to_string(), "src/a.rs".to_string()];
    assert!(matches!(reopen_step(&reopen(false), true, true, 0, None, "", false, &[]), Step::Wait));
    match reopen_step(&reopen(false), true, false, 0, None, "", false, &[]) {
        Step::Gone(n) => assert_eq!(n, "abc is gone"),
        _ => panic!("expected the commit to be gone"),
    }
    assert!(matches!(reopen_step(&reopen(false), true, false, 3, None, "", false, &[]), Step::Replace(2)));
    assert!(matches!(reopen_step(&reopen(false), false, false, 3, Some(("h2", "x")), "h2", false, &paths), Step::Wait));
    assert!(matches!(reopen_step(&reopen(false), false, false, 3, Some(("h1", "abc")), "h1", true, &paths), Step::Wait));
    match reopen_step(&reopen(false), false, false, 3, Some(("h1", "abc")), "h1", false, &paths) {
        Step::Open(at, note) => {
            assert_eq!(at, 1);
            assert_eq!(note, None);
        }
        _ => panic!("expected the file to open"),
    }
    match reopen_step(&reopen(true), false, false, 3, Some(("h2", "def")), "h2", false, &paths) {
        Step::Open(at, note) => {
            assert_eq!(at, 1);
            assert_eq!(note, Some("abc is gone, so this is def".to_string()));
        }
        _ => panic!("expected the stand-in to open"),
    }
    match reopen_step(&reopen(false), false, false, 3, Some(("h1", "abc")), "h1", false, &paths[..1]) {
        Step::Missing(n) => assert_eq!(n, "`src/a.rs` is not in abc any more"),
        _ => panic!("expected the file to be missing"),
    }
    match reopen_step(&reopen(true), false, false, 3, Some(("h2", "def")), "h2", false, &[]) {
        Step::Missing(n) => assert_eq!(n, "abc is gone, and `src/a.rs` is not in def"),
        _ => panic!("expected the file to be missing"),
    }
}

#[test]
fn a_query_edits_at_its_caret() {
    let mut q = Query::new();
    assert!(q.edit(Key::Char('a'), false));
    assert!(q.edit(Key::Char('c'), false));
    assert!(!q.edit(Key::Left, false));
    assert!(q.edit(Key::Char('b'), false));
    assert_eq!(q.text, "abc");
    assert_eq!(q.caret, 2);
    assert!(!q.edit(Key::Char('x'), true));
    assert!(q.edit(Key::Backspace, false));
    assert_eq!((q.text.as_str(), q.caret), ("ac", 1));
    assert!(q.edit(Key::Delete, false));
    assert_eq!((q.text.as_str(), q.caret), ("a", 1));
    assert!(!q.edit(Key::Delete, false));
    assert!(!q.edit(Key::Home, false));
    assert_eq!(q.caret, 0);
    assert!(!q.edit(Key::Backspace, false));
    assert!(!q.edit(Key::End, false));
    assert_eq!(q.caret, 1);
    q.clear();
    assert_eq!((q.text.as_str(), q.caret), ("", 0));
}

#[test]
fn a_query_keeps_rows_that_hold_it_whatever_the_case() {
    let mut q = Query::new();
    assert!(q.keeps("anything at all"));
    for c in "FiX".chars() {
        q.edit(Key::Char(c), false);
    }
    assert!(q.keeps("a fix for the bug"));
    assert!(q.keeps("FIXME"));
    assert!(!q.keeps("feature"));
    q.caret = 0;
    q.open();
    assert_eq!(q.caret, 3);
}

#[test]
fn a_view_waits_a_frame_while_rows_arrive() {
    assert_eq!(poll_wait(true, None), Some(FRAME_MS));
    assert_eq!(poll_wait(true, Some(10)), Some(10));
    assert_eq!(poll_wait(true, Some(5000)), Some(FRAME_MS));
    assert_eq!(poll_wait(false, Some(5000)), Some(5000));
    assert_eq!(poll_wait(false, None), None);
    assert_eq!(note_left(1000, 1500), 2500);
    assert_eq!(note_left(1000, 9000), 0);
    assert_eq!(note_left(1000, 500), 3000);
}

#[test]
fn a_difftool_run_comes_to_quiet_a_note_or_a_box() {
    assert!(matches!(outcome(Handoff::Exited { success: true, code: Some(0), said: String::new() }), DiffTool::Quiet));
    match outcome(Handoff::Exited { success: false, code: Some(1), said: String::new() }) {
        DiffTool::Note(n) => assert_eq!(n, "difftool exited with status 1"),
        _ => panic!("expected a note"),
    }
    match outcome(Handoff::Exited { success: false, code: None, said: "boom".into() }) {
        DiffTool::Failed(m) => {
            assert_eq!(m.title(), " difftool failed ");
            assert_eq!(m.body(), "git difftool exited with status a signal.\n\nboom");
        }
        _ => panic!("expected a box"),
    }
    match outcome(Handoff::NotStarted("no git".into())) {
        DiffTool::Failed(m) => assert_eq!(m.body(), "Could not run git difftool: no git"),
        _ => panic!("expected a box"),
    }
    assert_eq!(tail("one\ntwo\n"), "one\ntwo");
}

#[test]
fn a_diff_lays_out_side_by_side() {
    let raw = "commit abc\n\ndiff --git a/x.rs b/x.rs\nindex 1..2\n--- a/x.rs\n+++ b/x.rs\n@@ -1,2 +1,2 @@\n keep\n-old\n+new\n";
    let rows = layout_diff(raw);
    assert_eq!(rows.len(), 8);
    assert!(matches!(&rows[0], Row::Plain(l) if l == "commit abc"));
    assert!(matches!(&rows[1], Row::File { path, .. } if path == "x.rs"));
    assert!(matches!(&rows[2], Row::Dim(l) if l == "index 1..2"));
    assert!(matches!(&rows[3], Row::Dim(l) if l == "--- a/x.rs"));
    assert!(matches!(&rows[4], Row::Dim(l) if l == "+++ b/x.rs"));
    assert!(matches!(&rows[5], Row::Hunk(l) if l == "@@ -1,2 +1,2 @@"));
    match &rows[6] {
        Row::Pair { left, right, changed } => {
            assert_eq!(left, &Some((1, "keep".to_string())));
            assert_eq!(right, &Some((1, "keep".to_string())));
            assert!(!*changed);
        }
        _ => panic!("expected a context pair"),
    }
    match &rows[7] {
        Row::Pair { left, right, changed } => {
            assert_eq!(left, &Some((2, "old".to_string())));
            assert_eq!(right, &Some((2, "new".to_string())));
            assert!(*changed);
        }
        _ => panic!("expected a changed pair"),
    }
}

#[test]
fn a_branch_filter_matches_its_name_state_age_and_author() {
    let mut b = branch(false, true, "[ahead 2]");
    b.rel = "2 days ago".into();
    b.author = "ann".into();
    assert_eq!(sluuz::app::branches::haystack(&b), "b ↑2 2 days ago ann");
    let q = Query { text: "ann".into(), caret: 3 };
    assert!(q.keeps(&sluuz::app::branches::haystack(&b)));
}
