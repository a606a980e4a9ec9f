use sluuz::commands::istatus::{
    actions, cached, diff_args, diff_tag, difftool_args, expand_untracked_dirs, help,
    hidden_note, needs_listing, parse_status, parse_untracked_inside, rescope, reselect,
    scope_at, stage_args, status_code, status_key, Action, Entry, Scope, UNTRACKED_CAP,
};
use sluuz::tui::input::Key;

fn entry(x: char, y: char, path: &str) -> Entry {
    Entry { x, y, path: path.to_string(), hidden: 0 }
}

#[test]
fn porcelain_records_keep_their_leading_space() {
    let es = parse_status(" M src/lib.rs\0M  Cargo.toml\0?? notes.txt\0");
    assert_eq!(es.len(), 3);
    assert_eq!((es[0].x, es[0].y, es[0].path.as_str()), (' ', 'M', "src/lib.rs"));
    assert_eq!((es[1].x, es[1].y, es[1].path.as_str()), ('M', ' ', "Cargo.toml"));
    assert_eq!((es[2].x, es[2].y, es[2].path.as_str()), ('?', '?', "notes.txt"));
}

#[test]
fn a_rename_skips_its_original_path() {
    let es = parse_status("R  new.rs\0old.rs\0 M other.rs\0");
    assert_eq!(es.len(), 2);
    assert_eq!(es[0].path, "new.rs");
    assert_eq!(es[1].path, "other.rs");
}

#[test]
fn short_tokens_are_not_entries() {
    assert!(parse_status("").is_empty());
    assert!(parse_status("M \0").is_empty());
    let es = parse_status("A  a\0xy\0");
    assert_eq!(es.len(), 1);
    assert_eq!(es[0].path, "a");
}

#[test]
fn a_file_with_a_space_in_its_name_stays_whole() {
    let es = parse_status("?? my file.txt\0");
    assert_eq!(es[0].path, "my file.txt");
}

#[test]
fn staged_unstaged_and_untracked_are_told_apart() {
    let staged = entry('M', ' ', "a");
    let unstaged = entry(' ', 'M', "b");
    let both = entry('M', 'M', "c");
    let new = entry('?', '?', "d");
    assert!(staged.staged() && !staged.unstaged());
    assert!(!unstaged.staged() && unstaged.unstaged());
    assert!(both.staged() && both.unstaged());
    assert!(!new.staged() && new.unstaged() && new.untracked());
    assert!(staged.in_scope(Scope::All) && staged.in_scope(Scope::Staged));
    assert!(!staged.in_scope(Scope::Unstaged));
    assert!(new.in_scope(Scope::Unstaged) && !new.in_scope(Scope::Staged));
}

#[test]
fn tabs_run_all_staged_unstaged() {
    assert_eq!(scope_at(0), Scope::All);
    assert_eq!(scope_at(1), Scope::Staged);
    assert_eq!(scope_at(2), Scope::Unstaged);
    assert_eq!(Scope::All.label(), "all");
    assert_eq!(Scope::Staged.label(), "staged");
    assert_eq!(Scope::Unstaged.label(), "unstaged");
}

#[test]
fn the_all_tab_shows_the_worktree_side_when_there_is_one() {
    let staged = entry('M', ' ', "a");
    let both = entry('M', 'M', "c");
    assert!(cached(&staged, Scope::All));
    assert!(!cached(&both, Scope::All));
    assert!(cached(&both, Scope::Staged));
    assert!(!cached(&staged, Scope::Unstaged));
    assert_eq!(diff_tag(&staged, Scope::All), "[staged]");
    assert_eq!(diff_tag(&both, Scope::All), "[worktree]");
    assert_eq!(diff_tag(&entry('?', '?', "n"), Scope::All), "[untracked]");
}

#[test]
fn the_git_words_for_a_file() {
    let e = entry(' ', 'M', "src/a.rs");
    assert_eq!(stage_args(true, &e), vec!["add", "--", "src/a.rs"]);
    assert_eq!(stage_args(false, &e), vec!["restore", "--staged", "--", "src/a.rs"]);
    assert_eq!(diff_args(&e, Scope::All, "/dev/null"), vec!["diff", "--", "src/a.rs"]);
    assert_eq!(
        diff_args(&e, Scope::Staged, "/dev/null"),
        vec!["diff", "--cached", "--", "src/a.rs"]
    );
    let n = entry('?', '?', "new.rs");
    assert_eq!(
        diff_args(&n, Scope::All, "/dev/null"),
        vec!["diff", "--no-index", "--", "/dev/null", "new.rs"]
    );
    assert_eq!(difftool_args(&n, Scope::All), None);
    assert_eq!(difftool_args(&e, Scope::All), Some(vec!["--".to_string(), "src/a.rs".to_string()]));
    assert_eq!(
        difftool_args(&entry('M', ' ', "x"), Scope::All),
        Some(vec!["--cached".to_string(), "--".to_string(), "x".to_string()])
    );
}

#[test]
fn an_untracked_directory_opens_into_its_files() {
    let dir = entry('?', '?', "development/");
    assert!(needs_listing(&dir));
    assert!(!needs_listing(&entry('?', '?', "file.txt")));
    assert!(!needs_listing(&entry(' ', 'M', "tracked/")));
    let inside = parse_untracked_inside("?? development/a.txt\0?? development/b.txt\0");
    assert_eq!(inside.len(), 2);
    let out = expand_untracked_dirs(vec![entry(' ', 'M', "x"), dir], vec![Vec::new(), inside]);
    let paths: Vec<&str> = out.iter().map(|e| e.path.as_str()).collect();
    assert_eq!(paths, vec!["x", "development/a.txt", "development/b.txt"]);
}

#[test]
fn a_crowded_untracked_directory_stays_one_row_with_a_count() {
    let dir = entry('?', '?', "node_modules/");
    let many: Vec<Entry> = (0..UNTRACKED_CAP + 1)
        .map(|i| entry('?', '?', &format!("node_modules/{i}")))
        .collect();
    let out = expand_untracked_dirs(vec![dir], vec![many]);
    assert_eq!(out.len(), 1);
    assert_eq!(out[0].path, "node_modules/");
    assert_eq!(out[0].hidden, UNTRACKED_CAP + 1);
    assert_eq!(hidden_note(&out[0]), "  26 files");
    let empty = expand_untracked_dirs(vec![entry('?', '?', "empty/")], vec![Vec::new()]);
    assert_eq!(empty.len(), 1);
    assert_eq!(hidden_note(&empty[0]), "");
}

#[test]
fn a_tab_keeps_its_entries_and_the_cursor_in_range() {
    let es = vec![entry('M', ' ', "a"), entry(' ', 'M', "b"), entry('?', '?', "c")];
    assert_eq!(rescope(&es, 0, 1), (vec![0, 1, 2], 1));
    assert_eq!(rescope(&es, 1, 2), (vec![0], 0));
    assert_eq!(rescope(&es, 2, 5), (vec![1, 2], 1));
    assert_eq!(rescope(&[], 0, 3), (vec![], 0));
}

#[test]
fn a_reload_keeps_the_cursor_on_its_file() {
    let es = vec![entry('M', ' ', "a"), entry(' ', 'M', "b"), entry('?', '?', "c")];
    let visible = vec![0, 1, 2];
    assert_eq!(reselect(&es, &visible, Some("c"), 0), Some(2));
    assert_eq!(reselect(&es, &visible, Some("c"), 2), None);
    assert_eq!(reselect(&es, &visible, Some("gone"), 0), None);
    assert_eq!(reselect(&es, &visible, None, 0), None);
}

#[test]
fn the_two_column_code() {
    assert_eq!(status_code(&entry('M', ' ', "a")), ('M', ' '));
    assert_eq!(status_code(&entry(' ', 'D', "a")), (' ', 'D'));
    assert_eq!(status_code(&entry('?', '?', "a")), (' ', '?'));
}

#[test]
fn what_a_key_does_in_the_status_view() {
    let k = |code, ctrl, sel, scope| status_key(code, ctrl, 1, sel, 3, scope, 4, 0, 100, 40);
    assert_eq!(k(Key::Char('j'), false, 0, 0), Action::Select(1));
    assert_eq!(k(Key::Char('j'), false, 2, 0), Action::Nothing);
    assert_eq!(k(Key::Char('k'), false, 0, 0), Action::Nothing);
    assert_eq!(k(Key::Char('j'), true, 0, 0), Action::Scroll(7));
    assert_eq!(k(Key::Char('k'), true, 0, 0), Action::Scroll(1));
    assert_eq!(k(Key::Char('l'), true, 0, 0), Action::Pan(8));
    assert_eq!(k(Key::Char('h'), true, 0, 0), Action::Pan(0));
    assert_eq!(k(Key::Char('l'), false, 0, 0), Action::Tab(1));
    assert_eq!(k(Key::Char('l'), false, 0, 2), Action::Nothing);
    assert_eq!(k(Key::Char('h'), false, 0, 1), Action::Tab(0));
    assert_eq!(k(Key::Char('s'), false, 0, 0), Action::Stage);
    assert_eq!(k(Key::Char('u'), false, 0, 0), Action::Unstage);
    assert_eq!(k(Key::Char(' '), false, 0, 0), Action::Toggle);
    assert_eq!(k(Key::Char('r'), false, 0, 0), Action::Reload);
    assert_eq!(k(Key::Enter, false, 0, 0), Action::Difftool);
    // a held key moves further, and panning stops at the widest line
    assert_eq!(status_key(Key::Down, false, 4, 0, 10, 0, 0, 0, 100, 40), Action::Select(4));
    assert_eq!(status_key(Key::Right, true, 8, 0, 10, 0, 0, 50, 100, 40), Action::Pan(60));
}

#[test]
fn the_footer_and_help_of_the_status_view() {
    assert_eq!(actions(), vec!["s stage", "u unstage", "space flip", "enter difftool", "r refresh"]);
    let h = help();
    assert_eq!(h.len(), 10);
    assert_eq!(h[2], ("s".to_string(), "stage the file".to_string()));
    assert_eq!(h[9], ("q".to_string(), "quit".to_string()));
}
