use sluuz::cli::{help_template, is_interactive};
use sluuz::commands::branches::{cleanup_line, delete_line, merged_names};
use sluuz::commands::completions::{already_set_up, rc_block, verb_names, verbs, Shell};
use sluuz::commands::each::{output_lines, summary as each_summary, Outcome as EachOutcome};
use sluuz::commands::fetch::{fetched, pulled, summary, Outcome, State};
use sluuz::commands::ilog::log_args as ilog_args;
use sluuz::commands::iscan::{browse_key, edit_key, help as scan_help, scan_terms, BrowseKey, EditKey};
use sluuz::commands::repos::{shown, summary as repos_summary};
use sluuz::commands::scan::count_hits;
use sluuz::commands::search::more_note;
use sluuz::commands::tidy::{parse_gone, prunes_from, remote_names, tidy_footer, tidy_key, tidy_title, TidyKey};
use sluuz::commands::trace::{log_args, parse_row, rel_width, row_cells, split_rail, width_or_default};
use sluuz::git::{first_line, trimmed_lines, RepoStatus};
use sluuz::history::{CommitMatch, FileMatch};
use sluuz::text::sort_by_name;
use sluuz::tui::input::Key;

const SEP: char = '\u{1f}';

fn repo(name: &str, dirty: usize, ahead: usize) -> RepoStatus {
    RepoStatus {
        name: name.into(),
        path: format!("/{name}"),
        branch: "main".into(),
        has_upstream: true,
        dirty,
        ahead,
        behind: 0,
        origin: String::new(),
    }
}

#[test]
fn only_branches_whose_upstream_is_gone_are_listed() {
    let out = format!(
        "refs/heads/old{SEP}[gone]{SEP}3 weeks ago{SEP}Ann\nrefs/heads/live{SEP}[ahead 1]{SEP}2 days ago{SEP}Bo\nrefs/heads/main{SEP}{SEP}1 hour ago{SEP}Cy\nrefs/heads/mine{SEP}[gone]{SEP}5 days ago{SEP}Di"
    );
    let all = parse_gone(&out, None);
    let names: Vec<&str> = all.iter().map(|g| g.name.as_str()).collect();
    assert_eq!(names, vec!["old", "mine"]);
    assert_eq!((all[0].age.as_str(), all[0].author.as_str()), ("3 weeks ago", "Ann"));
    let not_current = parse_gone(&out, Some("mine"));
    assert_eq!(not_current.len(), 1);
    assert_eq!(not_current[0].name, "old");
    // a tag sharing the name does not leak `heads/` into it
    let tagged = parse_gone(&format!("refs/heads/v0.2{SEP}[gone]"), None);
    assert_eq!(tagged[0].name, "v0.2");
    assert_eq!(tagged[0].age, "");
}

#[test]
fn the_tidy_view_keys() {
    assert_eq!(tidy_key(Key::Char('j'), None, 0, 3), TidyKey::Move(1));
    assert_eq!(tidy_key(Key::Char('j'), None, 2, 3), TidyKey::Nothing);
    assert_eq!(tidy_key(Key::Char('k'), None, 2, 3), TidyKey::Move(1));
    assert_eq!(tidy_key(Key::Enter, None, 0, 3), TidyKey::Ask);
    assert_eq!(tidy_key(Key::Enter, None, 0, 0), TidyKey::Nothing);
    assert_eq!(tidy_key(Key::Char('p'), None, 0, 0), TidyKey::Prune);
    assert_eq!(tidy_key(Key::Esc, None, 0, 0), TidyKey::Quit);
    assert_eq!(tidy_key(Key::Enter, Some(false), 0, 3), TidyKey::Cancel);
    assert_eq!(tidy_key(Key::Enter, Some(true), 0, 3), TidyKey::Delete);
    assert_eq!(tidy_key(Key::Char('y'), Some(false), 0, 3), TidyKey::Delete);
    assert_eq!(tidy_key(Key::Left, Some(false), 0, 3), TidyKey::PickYes);
    assert_eq!(tidy_key(Key::Esc, Some(true), 0, 3), TidyKey::Cancel);
}

#[test]
fn the_tidy_view_words() {
    assert_eq!(tidy_title(0, 0), " no branches with a deleted upstream - nothing to tidy ");
    assert_eq!(tidy_title(1, 4), " gone branches  2/4 ");
    assert_eq!(tidy_footer(Some((true, "pruned"))), " ✓ pruned");
    assert_eq!(tidy_footer(Some((false, "nope"))), " ✗ nope");
    assert_eq!(tidy_footer(None), " ↑↓/jk move · enter delete · p prune · q quit");
    assert!(prunes_from(Some("true\n")));
    assert!(!prunes_from(Some("false")));
    assert!(!prunes_from(None));
    assert_eq!(remote_names("origin\n\nupstream\n"), vec!["origin", "upstream"]);
}

#[test]
fn merged_branches_leave_out_the_checked_out_one() {
    assert_eq!(merged_names("  feat/a\n* main\nmain\n\n  fix\n", "main"), vec!["feat/a", "* main", "fix"]);
    assert_eq!(delete_line(&["a".to_string(), "b".to_string()]), "git branch -d a b");
    assert_eq!(cleanup_line(3, 2), "3 branch(es) across 2 repo(s) can be deleted");
    assert_eq!(trimmed_lines("  x \n\n y"), vec!["x", "y"]);
    assert_eq!(first_line("\n  error: nope  \nmore"), "error: nope");
}

#[test]
fn trace_reads_its_rows_back() {
    let r = parse_row(&format!("abc1234{SEP}2024-01-02 03:04{SEP}2 days ago{SEP}Ann{SEP}fix: it")).unwrap();
    assert_eq!((r.hash.as_str(), r.rel.as_str(), r.subject.as_str()), ("abc1234", "2 days ago", "fix: it"));
    let no_subject = parse_row(&format!("a{SEP}d{SEP}r{SEP}c")).unwrap();
    assert_eq!(no_subject.subject, "");
    assert!(parse_row(&format!("a{SEP}d{SEP}r")).is_none());
    let (rail, row) = split_rail(&format!("* \u{1e}a{SEP}d{SEP}r{SEP}c{SEP}s"));
    assert_eq!(rail, "* ");
    assert_eq!(row.unwrap().committer, "c");
    let (rail, row) = split_rail("|\\");
    assert_eq!(rail, "|\\");
    assert!(row.is_none());
}

#[test]
fn trace_lines_up_its_columns() {
    let rows = vec![
        parse_row(&format!("a{SEP}d{SEP}2 days ago{SEP}c{SEP}s")).unwrap(),
        parse_row(&format!("b{SEP}d{SEP}10 days ago{SEP}c{SEP}s")).unwrap(),
    ];
    assert_eq!(rel_width(&rows), 13);
    assert_eq!(rel_width(&[]), 0);
    let cells = row_cells("", &rows[0], 13, 100);
    assert_eq!(cells.hash, "a      ");
    assert_eq!(cells.rel, " (2 days ago)");
    assert_eq!(cells.who, "<c>");
    assert_eq!(cells.subject, "s");
    let long = parse_row(&format!("a{SEP}d{SEP}r{SEP}Averyveryverylongcommittername{SEP}{}", "x".repeat(80))).unwrap();
    let cells = row_cells("", &long, 3, 60);
    assert_eq!(cells.who, "<Averyveryverylong…>");
    assert_eq!(cells.subject.chars().count(), 10);
    assert_eq!(width_or_default(None), 100);
    assert_eq!(width_or_default(Some(80)), 80);
}

#[test]
fn trace_asks_git_for_its_fields() {
    let flat = log_args(false, 30, false);
    assert_eq!(flat[0..4], ["log", "-n", "30", "--date=format:%Y-%m-%d %H:%M"]);
    assert_eq!(flat[4], format!("--pretty=format:%h{SEP}%ad{SEP}%ar{SEP}%cn{SEP}%s"));
    let graph = log_args(true, 5, true);
    assert_eq!(graph[1], "--graph");
    assert_eq!(graph[6], format!("--pretty=format:\u{1e}%h{SEP}%ad{SEP}%ar{SEP}%cn{SEP}%s"));
    assert_eq!(graph.last().unwrap(), "--all");
}

#[test]
fn a_binary_file_counts_as_one_hit() {
    let c = CommitMatch {
        short: "a".into(),
        full: "a".into(),
        date: "d".into(),
        subject: "s".into(),
        files: vec![
            FileMatch { path: "x".into(), lines: vec![(true, "token".into()), (false, "token".into())] },
            FileMatch { path: "bin".into(), lines: vec![] },
        ],
    };
    assert_eq!(count_hits(&[c]), 3);
    assert_eq!(count_hits(&[]), 0);
}

#[test]
fn what_a_fetch_and_a_pull_come_to() {
    let o = fetched("r", false, "fatal: no\nmore", false).unwrap();
    assert!(o.state == State::Fail && o.note == "fatal: no");
    assert_eq!(fetched("r", true, "", false).unwrap().note, "up to date");
    assert_eq!(fetched("r", true, "From x", false).unwrap().note, "fetched");
    assert!(fetched("r", true, "", true).is_none());
    assert_eq!(pulled("r", true, "Already up to date.").note, "up to date");
    assert_eq!(pulled("r", true, "Updating a..b").note, "fast-forwarded");
    let skip = pulled("r", false, "There is no tracking information for the current branch.");
    assert!(skip.state == State::Skip && skip.note == "fetched, no upstream to pull");
    assert!(pulled("r", false, "error: x").state == State::Fail);
}

#[test]
fn reports_come_in_name_order() {
    let mk = |n: &str, s: State| Outcome { name: n.into(), state: s, note: String::new() };
    let sorted = sort_by_name(vec![mk("zeta", State::Done), mk("alpha", State::Fail), mk("mid", State::Skip)]);
    let names: Vec<&str> = sorted.iter().map(|o| o.name.as_str()).collect();
    assert_eq!(names, vec!["alpha", "mid", "zeta"]);
    assert_eq!(summary(&sorted), ("3 repos · 1 failed".to_string(), 1));
}

#[test]
fn each_groups_output_per_repo() {
    assert_eq!(output_lines(""), None);
    assert_eq!(output_lines("a\nb\n"), Some(vec!["a".to_string(), "b".to_string()]));
    let outs = vec![
        EachOutcome { name: "b".into(), ok: true, output: String::new() },
        EachOutcome { name: "a".into(), ok: false, output: "x".into() },
    ];
    let sorted = sort_by_name(outs);
    assert_eq!(sorted[0].name, "a");
    assert_eq!(each_summary(&sorted), ("2 repos · 1 failed".to_string(), 1));
}

#[test]
fn repos_dirty_keeps_those_needing_attention() {
    let rs = vec![repo("a", 0, 0), repo("b", 2, 0), repo("c", 0, 1)];
    assert_eq!(shown(&rs, false), vec![0, 1, 2]);
    assert_eq!(shown(&rs, true), vec![1, 2]);
    assert_eq!(repos_summary(&rs, &[0, 1, 2]), "3 repos · 1 dirty · 1 with unpushed commits");
    let sorted = sort_by_name(vec![repo("z", 0, 0), repo("a", 0, 0)]);
    assert_eq!(sorted[0].name, "a");
}

#[test]
fn search_says_how_many_more_there_are() {
    assert_eq!(more_note(25, 20), Some("↳ 5 more — use -l 25 to see all".to_string()));
    assert_eq!(more_note(20, 20), None);
}

#[test]
fn completions_reuse_gits_and_add_the_verbs() {
    assert_eq!(verbs().len(), 15);
    assert!(verb_names().starts_with("search scan repos sync"));
    assert!(verb_names().ends_with("update completions"));
    let bash = Shell::Bash.script();
    assert!(bash.contains("compgen -W 'search scan repos"));
    assert!(bash.contains("${COMP_CWORD:-0}"));
    let zsh = Shell::Zsh.script();
    assert!(zsh.starts_with("#compdef slu\n"));
    assert!(zsh.contains("        'scan:audit repos for leaked secrets'\n"));
    let fish = Shell::Fish.script();
    assert!(fish.contains("complete -c slu -w git\n"));
    assert!(fish.ends_with("complete -c slu -n __fish_use_subcommand -a completions -d 'print a shell completion script'\n"));
    assert_eq!(Shell::Fish.rc_file(), ".config/fish/config.fish");
    assert!(already_set_up("x\n  source <(slu completions bash)  \n", Shell::Bash));
    assert!(!already_set_up("source <(slu completions zsh)", Shell::Bash));
    assert_eq!(rc_block(Shell::Zsh), "\n# sluuz shell completion\nsource <(slu completions zsh)\n");
}

#[test]
fn the_help_lists_interactive_commands_apart() {
    assert!(is_interactive("iscan"));
    assert!(!is_interactive("scan"));
    let cmds = vec![
        ("scan".to_string(), "audit repos".to_string()),
        ("iscan".to_string(), "search history\nas you type".to_string()),
    ];
    let t = help_template(&cmds, ("<h>", "</h>"), ("<b>", "</b>"));
    let (plain, tui) = t.split_once("Interactive (TUI):").unwrap();
    assert!(plain.contains("\n  <b>scan</b>   audit repos\n"));
    assert!(tui.contains("\n  <b>iscan</b>  search history\n         as you type\n"));
    assert!(t.starts_with("{about-with-newline}\n{usage-heading} {usage}\n\n<h>Commands:</h>\n"));
    assert!(t.ends_with("<h>Options:</h>\n{options}{after-help}\n"));
}

#[test]
fn ilog_hands_git_its_paths_after_a_separator() {
    assert_eq!(ilog_args(true, &[]), vec!["--all"]);
    assert_eq!(ilog_args(false, &["a".to_string()]), vec!["--", "a"]);
    assert!(ilog_args(false, &[]).is_empty());
}

#[test]
fn the_scan_bar_and_its_keys() {
    assert_eq!(scan_terms("  "), vec!["password", "secret", "token", "api_key", "passwd", "credentials"]);
    assert_eq!(scan_terms("aws, key"), vec!["aws", "key"]);
    assert_eq!(edit_key(Key::Enter, false), EditKey::Submit);
    assert_eq!(edit_key(Key::Esc, true), EditKey::Browse);
    assert_eq!(edit_key(Key::Esc, false), EditKey::Quit);
    assert_eq!(edit_key(Key::Char('q'), false), EditKey::Field);
    let b = |code, scope| browse_key(code, false, 1, 0, 5, scope, 2, 0, 0, 0, 0);
    assert_eq!(b(Key::Char('q'), 0), BrowseKey::Quit);
    assert_eq!(b(Key::Char('/'), 0), BrowseKey::Edit);
    assert_eq!(b(Key::Char('i'), 0), BrowseKey::Edit);
    assert_eq!(b(Key::Char('j'), 0), BrowseKey::Select(1));
    assert_eq!(b(Key::Char('l'), 1), BrowseKey::Tab(2));
    assert_eq!(b(Key::Char('l'), 2), BrowseKey::Nothing);
    assert_eq!(b(Key::Enter, 0), BrowseKey::Difftool);
    assert_eq!(browse_key(Key::Enter, false, 1, 0, 0, 0, 2, 0, 0, 0, 0), BrowseKey::Nothing);
    assert_eq!(scan_help().len(), 7);
}

#[test]
fn every_interactive_command_is_listed_under_its_own_heading() {
    let names = [
        "search", "scan", "repos", "sync", "tidy", "each", "trace", "completions", "self", "iscan", "irepos",
        "ibranch", "itag", "ilog", "istash", "istatus", "itidy",
    ];
    let cmds: Vec<(String, String)> = names.iter().map(|n| (n.to_string(), format!("what {n} does"))).collect();
    let rendered = help_template(&cmds, ("<h>", "</h>"), ("<b>", "</b>"));
    let (plain, interactive) = rendered.split_once("Interactive (TUI):").expect("the list is split into two groups");
    for name in names {
        let row = format!("\n  <b>{name}</b>");
        let (half, group) = if name.starts_with('i') { (interactive, "interactive") } else { (plain, "plain") };
        assert!(half.contains(&row), "`{name}` is missing from the {group} group");
    }
}
