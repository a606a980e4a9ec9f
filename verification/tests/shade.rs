use sluuz::app::repos::relative_name_from;
use sluuz::commands::ilog::rebase_path_from;
use sluuz::tui::difftool::{no_difftool, DiffTool};
use sluuz::tui::highlight::Row;
use sluuz::tui::shade::prepare;
use sluuz::tui::widgets::wrapped_height;

const DIFF: &str = "commit abc\n\
diff --git a/src/x.rs b/src/x.rs\n\
index 1111111..2222222 100644\n\
--- a/src/x.rs\n\
+++ b/src/x.rs\n\
@@ -1,2 +1,2 @@\n\
\x20let keep = 1;\n\
-fn old_name() {}\n\
+fn new_name() {}\n";

fn text_of(cell: &[(sluuz::tui::shade::Paint, Vec<char>)]) -> String {
    cell.iter().flat_map(|(_, t)| t.iter()).collect()
}

#[test]
fn each_side_of_a_file_is_coloured_and_keeps_its_code() {
    let s = prepare(DIFF);
    assert_eq!(s.old.len(), s.rows.len());
    assert_eq!(s.new.len(), s.rows.len());
    let mut pairs = 0;
    for (i, row) in s.rows.iter().enumerate() {
        match row {
            Row::Pair { left, right, .. } => {
                pairs += 1;
                match left {
                    Some((_, code)) => {
                        assert_eq!(&text_of(&s.old[i]), code);
                        assert!(s.old[i].iter().all(|(p, _)| p.is_some()), "a file's code is coloured");
                    }
                    None => assert!(s.old[i].is_empty()),
                }
                match right {
                    Some((_, code)) => assert_eq!(&text_of(&s.new[i]), code),
                    None => assert!(s.new[i].is_empty()),
                }
            }
            _ => {
                assert!(s.old[i].is_empty(), "a row with no code has no cell");
                assert!(s.new[i].is_empty());
            }
        }
    }
    assert_eq!(pairs, 2);
    let changed = s.rows.iter().position(|r| matches!(r, Row::Pair { changed: true, .. })).unwrap();
    assert_eq!(text_of(&s.old[changed]), "fn old_name() {}");
    assert_eq!(text_of(&s.new[changed]), "fn new_name() {}");
    // A keyword and a name are painted differently.
    let paints: Vec<_> = s.new[changed].iter().map(|(p, _)| *p).collect();
    assert!(paints.windows(2).any(|w| w[0] != w[1]));
}

#[test]
fn the_difftool_alert_says_how_to_set_one() {
    match no_difftool() {
        DiffTool::Failed(m) => {
            assert_eq!(m.title(), " no difftool configured ");
            assert!(m.body().starts_with("Enter hands the file to `git difftool`"));
            assert!(m.body().contains("git config --global diff.tool vimdiff"));
        }
        _ => panic!("no difftool is a failure to read"),
    }
}

#[test]
fn an_empty_text_takes_no_rows_at_any_width() {
    assert_eq!(wrapped_height("", 0), 0);
    assert_eq!(wrapped_height("abcdefghij\n\nxy", 4), 5);
}

#[test]
fn a_repo_name_comes_from_what_std_said_of_its_path() {
    assert_eq!(relative_name_from(Some("crates\\vibox"), Some("vibox"), "pg/crates/vibox"), "crates/vibox");
    assert_eq!(relative_name_from(Some(""), Some("hscroll"), "pg"), "hscroll");
    assert_eq!(relative_name_from(None, Some("vibox"), "/elsewhere/vibox"), "vibox");
    assert_eq!(relative_name_from(None, None, "/"), "/");
}

#[test]
fn a_path_folds_unless_it_is_absolute() {
    assert_eq!(rebase_path_from(false, "../x/./y", "a/b/"), "a/x/y");
    assert_eq!(rebase_path_from(true, "../x", "a/"), "../x");
    assert_eq!(rebase_path_from(false, "..", "a/"), "");
}
