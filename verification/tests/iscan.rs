use sluuz::commands::iscan::{parse_terms, push_hits, rescope, terms_in, truncate, Hit, BINARY_HIT};
use sluuz::history::{CommitMatch, FileMatch};

fn hit(matched: Vec<usize>) -> Hit {
    Hit {
        repo: "r".into(),
        repo_path: "/r".into(),
        short: "abc1234".into(),
        full: "abc1234full".into(),
        date: "2026-01-01".into(),
        subject: "s".into(),
        file: "f".into(),
        line: "l".into(),
        is_add: true,
        matched,
    }
}

#[test]
fn terms_match_case_insensitively() {
    let terms = vec!["password".to_string(), "token".to_string()];
    assert_eq!(terms_in("+DB_PASSWORD = \"x\"", &terms), vec![0]);
    assert_eq!(terms_in("+api_TOKEN=1", &terms), vec![1]);
}

#[test]
fn a_line_can_match_several_terms() {
    let terms = vec!["password".to_string(), "token".to_string()];
    assert_eq!(terms_in("password and token", &terms), vec![0, 1]);
}

#[test]
fn no_match_is_empty() {
    let terms = vec!["password".to_string()];
    assert!(terms_in("nothing here", &terms).is_empty());
}

#[test]
fn the_bar_splits_on_commas_and_trims() {
    assert_eq!(parse_terms(" password , token "), vec!["password", "token"]);
    assert_eq!(parse_terms("one"), vec!["one"]);
    assert!(parse_terms("  ,  ").is_empty());
}

#[test]
fn a_term_may_contain_spaces() {
    // Only commas split, so a phrase stays one term.
    assert_eq!(parse_terms("BEGIN RSA PRIVATE KEY"), vec!["BEGIN RSA PRIVATE KEY"]);
}

#[test]
fn scope_zero_shows_everything() {
    assert!(hit(vec![1]).in_scope(0));
    assert!(hit(vec![]).in_scope(0));
}

#[test]
fn term_scope_filters_to_that_term() {
    let h = hit(vec![1]); // matched terms[1]
    assert!(h.in_scope(2), "scope 2 is terms[1], should show");
    assert!(!h.in_scope(1), "scope 1 is terms[0], should hide");
}

#[test]
fn binary_hits_show_in_every_scope() {
    // Pickaxe flagged the file but showed no lines, so which term matched is
    // unknown; hiding it in a term scope could hide a real secret.
    let h = hit(vec![]);
    assert!(h.in_scope(1) && h.in_scope(2));
}

#[test]
fn a_commit_flattens_to_one_hit_per_line() {
    let c = CommitMatch {
        short: "abc".into(),
        full: "abcdef".into(),
        date: "2026-01-02".into(),
        subject: "add keys".into(),
        files: vec![
            FileMatch {
                path: ".env".into(),
                lines: vec![(true, "+ TOKEN=1  ".into()), (false, "-password=2".into())],
            },
            FileMatch { path: "secret.gpg".into(), lines: Vec::new() },
        ],
    };
    let terms = vec!["password".to_string(), "token".to_string()];
    let mut out = Vec::new();
    push_hits(&mut out, "repo", "/repo", &c, &terms);
    assert_eq!(out.len(), 3);
    assert_eq!(out[0].line, "+ TOKEN=1");
    assert_eq!(out[0].matched, vec![1]);
    assert!(out[0].is_add);
    assert_eq!(out[1].matched, vec![0]);
    assert_eq!(out[2].line, BINARY_HIT);
    assert_eq!(out[2].file, "secret.gpg");
    assert!(out[2].matched.is_empty());
}

#[test]
fn a_shorter_tab_pulls_the_cursor_back() {
    let hits = vec![hit(vec![0]), hit(vec![1]), hit(vec![]), hit(vec![1])];
    assert_eq!(rescope(&hits, 0, 3), (vec![0, 1, 2, 3], 3));
    assert_eq!(rescope(&hits, 2, 3), (vec![1, 2, 3], 2));
    assert_eq!(rescope(&hits, 1, 3), (vec![0, 2], 1));
    assert_eq!(rescope(&[], 1, 3), (vec![], 0));
}

#[test]
fn long_text_is_cut_with_an_ellipsis() {
    assert_eq!(truncate("abcdef", 4), "abc…");
    assert_eq!(truncate("abcd", 4), "abcd");
    assert_eq!(truncate("ab", 0), "…");
}
