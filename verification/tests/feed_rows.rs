use sluuz::app::branches::Scope as BranchScope;
use sluuz::app::rows::{kept_rows, row_of, AllRows};
use sluuz::app::Sel;
use sluuz::commands::iscan::{scan_key_owner, ScanOwner};
use sluuz::git::load::{fast_forward_result, Branch, FileEntry};
use sluuz::tui::difffeed::DiffFeed;
use sluuz::tui::highlight::{gutter_width, hunk_reach_fits, layout_fits, pair_row, Part};
use sluuz::tui::input::{stepped, Key};
use sluuz::tui::widgets::Query;

fn file(status: char, path: &str) -> FileEntry {
    FileEntry { status, path: path.into() }
}

fn named(name: &str, remote: bool) -> Branch {
    Branch {
        is_head: false,
        remote,
        name: name.into(),
        refname: format!("refs/heads/{name}"),
        rel: String::new(),
        author: String::new(),
        has_upstream: false,
        upstream: String::new(),
        track: String::new(),
    }
}

#[test]
fn draining_keeps_the_last_answer_to_the_newest_request() {
    let mut feed = DiffFeed::default();
    feed.request(10);
    feed.request(20);
    let got = feed.take_all(vec![(1, "a"), (2, "b"), (2, "c"), (1, "d")]);
    assert_eq!(got, Some("c"));
    assert!(!feed.loading());
}

#[test]
fn draining_only_stale_answers_keeps_waiting() {
    let mut feed = DiffFeed::default();
    feed.request(10);
    feed.request(20);
    assert_eq!(feed.take_all(vec![(1, "a")]), None);
    assert!(feed.loading());
    assert_eq!(feed.take_all(Vec::<(u64, &str)>::new()), None);
    assert!(feed.loading());
}

#[test]
fn after_idle_no_earlier_answer_is_shown() {
    let mut feed = DiffFeed::default();
    feed.request(10);
    feed.idle();
    assert_eq!(feed.take_all(vec![(1, "a")]), None);
    assert!(!feed.loading());
}

#[test]
fn fast_forward_without_upstream_has_nothing_to_pull() {
    assert_eq!(fast_forward_result(false, (false, "boom".into()), Some("3")), Ok(None));
}

#[test]
fn fast_forward_refused_gives_gits_words() {
    assert_eq!(
        fast_forward_result(true, (false, "fatal: Not possible to fast-forward".into()), None),
        Err("fatal: Not possible to fast-forward".to_string())
    );
}

#[test]
fn fast_forward_counts_the_commits_it_moved_by() {
    assert_eq!(fast_forward_result(true, (true, String::new()), Some("3")), Ok(Some(3)));
    assert_eq!(fast_forward_result(true, (true, String::new()), Some("x")), Ok(Some(0)));
    assert_eq!(fast_forward_result(true, (true, String::new()), None), Ok(Some(0)));
}

#[test]
fn scan_keys_go_to_whoever_owns_them() {
    assert_eq!(scan_key_owner(Key::Char('c'), true, true, true, true), ScanOwner::Quit);
    assert_eq!(scan_key_owner(Key::Char('x'), false, true, true, false), ScanOwner::Modal);
    assert_eq!(scan_key_owner(Key::Char('x'), false, false, true, false), ScanOwner::CommandLine);
    assert_eq!(scan_key_owner(Key::Char(':'), false, false, false, false), ScanOwner::OpenCommand);
    assert_eq!(scan_key_owner(Key::Char(':'), false, false, false, true), ScanOwner::Edit);
    assert_eq!(scan_key_owner(Key::Down, false, false, false, false), ScanOwner::Browse);
}

#[test]
fn the_filter_keeps_rows_in_order_and_a_refresh_finds_them_again() {
    let files = vec![file('M', "src/a.rs"), file('A', "docs/b.md"), file('M', "src/c.rs")];
    let all = Query { text: String::new(), caret: 0 };
    assert_eq!(kept_rows(&files, 0, AllRows::All, &Vec::new(), &all), vec![0, 1, 2]);
    let q = Query { text: "src".into(), caret: 3 };
    let shown = kept_rows(&files, 0, AllRows::All, &Vec::new(), &q);
    assert_eq!(shown, vec![0, 2]);
    assert_eq!(kept_rows(&files, 1, AllRows::All, &Vec::new(), &q), vec![2]);
    assert_eq!(kept_rows(&files, 3, AllRows::All, &Vec::new(), &q), Vec::<usize>::new());
    assert_eq!(row_of(&files, &shown, "src/c.rs"), Some(1));
    assert_eq!(row_of(&files, &shown, "docs/b.md"), None);
}

#[test]
fn branch_scopes_keep_their_side() {
    let bs = vec![named("main", false), named("origin/main", true), named("feat", false)];
    let q = Query { text: String::new(), caret: 0 };
    assert_eq!(kept_rows(&bs, 0, BranchScope::Local, &Vec::new(), &q), vec![0, 2]);
    assert_eq!(kept_rows(&bs, 0, BranchScope::Remote, &Vec::new(), &q), vec![1]);
    assert_eq!(kept_rows(&bs, 0, BranchScope::All, &Vec::new(), &q), vec![0, 1, 2]);
    assert_eq!(row_of(&bs, &vec![1, 2], "feat"), Some(1));
}

#[test]
fn a_huge_step_stops_at_the_ends_without_overflow() {
    assert_eq!(stepped(3, 10, true, usize::MAX), 9);
    assert_eq!(stepped(3, 10, false, usize::MAX), 0);
    assert_eq!(stepped(usize::MAX - 1, usize::MAX, true, usize::MAX), usize::MAX - 1);
    let mut sel = Sel::default();
    sel.show(vec![4, 5, 6]);
    assert!(sel.step(true, usize::MAX));
    assert_eq!(sel.cur, 2);
    assert!(sel.step(false, usize::MAX));
    assert_eq!(sel.cur, 0);
}

#[test]
fn line_numbers_that_overflow_are_caught_before_layout() {
    let fine = "diff --git a/x.rs b/x.rs\n@@ -1,2 +1,2 @@\n a\n-b\n+c\n";
    assert!(layout_fits(fine));
    assert!(hunk_reach_fits(fine));
    assert_eq!(gutter_width(fine), 3);
    let top = format!("diff --git a/x.rs b/x.rs\n@@ -{m},1 +1,1 @@\n-b\n", m = usize::MAX);
    assert!(!layout_fits(&top));
    assert!(!hunk_reach_fits(&top));
    let edge = format!("diff --git a/x.rs b/x.rs\n@@ -{m},0 +1,1 @@\n+b\n", m = usize::MAX);
    assert!(layout_fits(&edge));
    assert!(hunk_reach_fits(&edge));
}

fn text_of(pieces: &[(Part<u8>, Option<u8>, String)]) -> String {
    pieces.iter().map(|p| p.2.as_str()).collect()
}

#[test]
fn a_changed_row_spans_the_pane_with_its_side_painted() {
    let left = Some((12usize, vec![(7u8, "abc".chars().collect::<Vec<char>>())]));
    let (l, r) = pair_row(&left, &None, true, 3, 20, 0, 1u8, 2u8);
    assert_eq!(text_of(&l), " 12 abc ");
    assert_eq!(text_of(&r), " ".repeat(9));
    assert_eq!(text_of(&l).len() + 3 + text_of(&r).len(), 20);
    assert!(l.iter().all(|p| p.1 == Some(1)));
    assert!(r.iter().all(|p| p.1.is_none()));
    assert!(matches!(l[0].0, Part::Gutter));
    assert!(matches!(l[1].0, Part::Code(7)));
    assert!(matches!(l[2].0, Part::Pad));
}

#[test]
fn a_panned_context_row_keeps_no_background() {
    let side = Some((5usize, vec![(0u8, "abcdef".chars().collect::<Vec<char>>())]));
    let (l, r) = pair_row(&side, &side, false, 3, 18, 2, 1u8, 2u8);
    assert_eq!(text_of(&l), "  5 cde");
    assert_eq!(text_of(&r), "  5 cdef");
    assert!(l.iter().chain(r.iter()).all(|p| p.1.is_none()));
}
