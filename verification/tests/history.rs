use sluuz::history::{parse_diff_header, parse_log, pickaxe};

fn log_for_password() -> String {
    [
        "COMMIT:abc|abcdef|2026-01-02|||add secrets",
        "diff --git a/.env b/.env",
        "--- a/.env",
        "+++ b/.env",
        "+PASSWORD=hunter2",
        "+name=x",
        "-old password line",
        "diff --git a/secret.gpg b/secret.gpg",
        "Binary files differ",
        "COMMIT:def|defabc|2026-01-01|||first",
        "diff --git a/a b/b c b/b c",
        "+password too",
    ]
    .join("\n")
}

#[test]
fn a_log_reads_into_commits_files_and_lines() {
    let commits = parse_log(&log_for_password(), "password", true);
    assert_eq!(commits.len(), 2);
    let c = &commits[0];
    assert_eq!(c.short, "abc");
    assert_eq!(c.full, "abcdef");
    assert_eq!(c.date, "2026-01-02");
    assert_eq!(c.subject, "add secrets");
    assert_eq!(c.files.len(), 2);
    assert_eq!(c.files[0].path, ".env");
    assert_eq!(
        c.files[0].lines,
        vec![(true, "+PASSWORD=hunter2".to_string()), (false, "-old password line".to_string())]
    );
    assert_eq!(c.files[1].path, "secret.gpg");
    assert!(c.files[1].lines.is_empty(), "binary files show no lines");
    assert_eq!(commits[1].files[0].path, "b c");
}

#[test]
fn a_case_sensitive_search_keeps_only_exact_lines() {
    let commits = parse_log(&log_for_password(), "password", false);
    assert_eq!(commits[0].files[0].lines, vec![(false, "-old password line".to_string())]);
}

#[test]
fn the_destination_path_is_after_the_last_b() {
    let line: Vec<char> = "diff --git a/x b/y b/z".chars().collect();
    let want: Vec<char> = "z".chars().collect();
    assert_eq!(parse_diff_header(&line), Some(want));
    let other: Vec<char> = "index 123..456".chars().collect();
    assert_eq!(parse_diff_header(&other), None);
}

#[test]
fn a_commit_two_terms_match_appears_once() {
    let password_log = [
        "COMMIT:abc|abcdef|2026-01-02|||add secrets",
        "diff --git a/.env b/.env",
        "+PASSWORD_TOKEN=1",
        "+password=2",
        "COMMIT:def|defabc|2026-01-01|||first",
        "diff --git a/x b/x",
        "+password",
    ]
    .join("\n");
    let token_log = [
        "COMMIT:abc|abcdef|2026-01-02|||add secrets",
        "diff --git a/.env b/.env",
        "+PASSWORD_TOKEN=1",
        "+token=3",
        "diff --git a/conf b/conf",
        "+token: 2",
    ]
    .join("\n");
    let runs = vec![
        ("password".to_string(), Some(password_log)),
        ("token".to_string(), Some(token_log)),
        ("unreachable".to_string(), None),
    ];
    let merged = pickaxe(&runs, true);
    assert_eq!(merged.len(), 2);
    assert_eq!(merged[0].full, "abcdef");
    assert_eq!(merged[1].full, "defabc");
    let files = &merged[0].files;
    assert_eq!(files.len(), 2);
    assert_eq!(files[0].path, ".env");
    // The line holding both terms is listed once.
    assert_eq!(
        files[0].lines,
        vec![
            (true, "+PASSWORD_TOKEN=1".to_string()),
            (true, "+password=2".to_string()),
            (true, "+token=3".to_string()),
        ]
    );
    assert_eq!(files[1].path, "conf");
    assert_eq!(files[1].lines, vec![(true, "+token: 2".to_string())]);
}
