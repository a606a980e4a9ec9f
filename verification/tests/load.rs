use sluuz::git::load::{
    default_branch, first_commit, fit_refs, landed, load_branches, load_commits, load_files,
    load_tags, parse_refs, remote_urls, tag_remote, tag_rule, tracks_tags, trunk_candidates,
    unique_commits, RefKind, RefLabel, TagState,
};

const S: char = '\u{1f}';

#[test]
fn ref_labels_never_run_past_their_room_and_keep_the_first() {
    let refs: Vec<RefLabel> = [
        (RefKind::Head, "feature/a-rather-long-branch-name"),
        (RefKind::Remote, "origin/feature/a-rather-long-branch-name"),
        (RefKind::Tag, "v2.2.0-rc.1"),
        (RefKind::Branch, "main"),
    ]
    .into_iter()
    .map(|(kind, name)| RefLabel { kind, name: name.to_string() })
    .collect();

    for room in 12..160 {
        let (kept, hidden) = fit_refs(&refs, room);
        // `(a, b, +2) `
        let drawn = 3
            + kept.iter().map(|(_, t)| t.chars().count()).sum::<usize>()
            + 2 * (kept.len() - 1)
            + if hidden > 0 { 3 + hidden.to_string().len() } else { 0 };
        assert!(!kept.is_empty(), "room {room}: the first label went missing");
        assert_eq!(kept.len() + hidden, refs.len(), "room {room}: labels lost count");
        assert!(drawn <= room, "room {room}: drew {drawn} columns from {kept:?} +{hidden}");
        for (i, (_, text)) in kept.iter().enumerate().skip(1) {
            assert_eq!(*text, refs[i].text(), "room {room}: only the first may be cut");
        }
    }
}

#[test]
fn a_log_keeps_branches_remotes_and_tags() {
    let d = "HEAD -> refs/heads/main, refs/remotes/origin/main, refs/remotes/origin/HEAD, \
             tag: refs/tags/v1, refs/stash, refs/heads/origin/lookalike";
    let got: Vec<(RefKind, String)> = parse_refs(d).into_iter().map(|r| (r.kind, r.name)).collect();
    assert_eq!(
        got,
        vec![
            (RefKind::Head, "main".to_string()),
            (RefKind::Remote, "origin/main".to_string()),
            (RefKind::Tag, "v1".to_string()),
            (RefKind::Branch, "origin/lookalike".to_string()),
        ]
    );
    assert_eq!(parse_refs("HEAD")[0].text(), "HEAD");
    assert!(parse_refs("").is_empty());
}

#[test]
fn a_log_line_reads_back_into_a_commit() {
    let out = format!(
        "abcdef{S}abc{S}2026-01-02 10:00{S}Ann{S}tag: refs/tags/v1{S}first\n\
         123456{S}123{S}2026-01-01 09:00{S}Bob{S}{S}\nshort{S}line\n"
    );
    let commits = load_commits(&out);
    assert_eq!(commits.len(), 2);
    assert_eq!(commits[0].hash, "abcdef");
    assert_eq!(commits[0].short, "abc");
    assert_eq!(commits[0].committer, "Ann");
    assert_eq!(commits[0].refs[0].text(), "tag: v1");
    assert_eq!(commits[0].subject, "first");
    assert!(commits[1].refs.is_empty());
    assert_eq!(commits[1].subject, "");
}

#[test]
fn branches_read_back_with_their_upstream() {
    let out = format!(
        "*{S}refs/heads/main{S}2 days ago{S}Ann{S}refs/remotes/origin/main{S}[ahead 1]\n\
         {S}refs/remotes/origin/HEAD{S}{S}{S}{S}\n\
         {S}refs/remotes/origin/main{S}3 days ago{S}Bob{S}{S}\n"
    );
    let branches = load_branches(&out);
    assert_eq!(branches.len(), 2);
    assert!(branches[0].is_head);
    assert!(!branches[0].remote);
    assert_eq!(branches[0].name, "main");
    assert_eq!(branches[0].upstream, "origin/main");
    assert!(branches[0].has_upstream);
    assert_eq!(branches[0].track, "[ahead 1]");
    assert!(branches[1].remote);
    assert_eq!(branches[1].name, "origin/main");
    assert!(!branches[1].has_upstream);
}

#[test]
fn tags_read_back_with_their_commit() {
    let out = format!(
        "refs/tags/v2{S}2026-01-02 10:00{S}tag{S}obj2{S}com2{S}release two\n\
         refs/tags/v1{S}2026-01-01 09:00{S}commit{S}com1{S}{S}first\n\
         refs/heads/x{S}d{S}commit{S}o{S}{S}s\n"
    );
    let tags = load_tags(&out);
    assert_eq!(tags.len(), 2);
    assert_eq!(tags[0].name, "v2");
    assert!(tags[0].annotated);
    assert_eq!(tags[0].object, "obj2");
    assert_eq!(tags[0].commit, "com2");
    assert_eq!(tags[1].commit, "com1");
    assert!(!tags[1].annotated);
    assert_eq!(tags[1].state, TagState::Unknown);
}

#[test]
fn the_tag_rule_and_whether_it_is_there() {
    assert_eq!(tag_rule("origin"), "+refs/tags/*:refs/remote-tags/origin/*");
    assert!(tracks_tags(Some("+refs/heads/*:refs/remotes/origin/*\n+refs/tags/*:refs/remote-tags/origin/*\n"), "origin"));
    assert!(!tracks_tags(Some("+refs/heads/*:refs/remotes/origin/*\n"), "origin"));
    assert!(!tracks_tags(None, "origin"));
}

#[test]
fn tags_are_compared_against_origin_first() {
    assert_eq!(tag_remote("upstream\norigin\n"), Some("origin".to_string()));
    assert_eq!(tag_remote("upstream\nfork\n"), Some("upstream".to_string()));
    assert_eq!(tag_remote(""), None);
}

#[test]
fn remotes_are_read_from_their_fetch_lines() {
    let out = "origin\tgit@github.com:o/r.git (fetch)\norigin\tgit@github.com:o/r.git (push)\n";
    assert_eq!(
        remote_urls(out),
        vec![("origin".to_string(), "git@github.com:o/r.git".to_string())]
    );
}

#[test]
fn a_merged_tree_equal_to_trunk_has_landed() {
    assert!(landed(Some("abc\nmore"), Some("abc")));
    assert!(!landed(Some("def"), Some("abc")));
    assert!(!landed(None, Some("abc")));
    assert_eq!(unique_commits(Some("3")), 3);
    assert_eq!(unique_commits(None), 0);
}

#[test]
fn the_default_branch_loses_its_remote() {
    assert_eq!(default_branch(Some("origin/main"), "origin"), Some("main".to_string()));
    assert_eq!(default_branch(Some("main"), "origin"), None);
    assert_eq!(default_branch(None, "origin"), None);
    assert_eq!(
        trunk_candidates(Some("dev"), "origin"),
        vec!["refs/remotes/origin/dev", "refs/remotes/origin/main", "refs/remotes/origin/master"]
    );
}

#[test]
fn files_and_the_newest_commit() {
    let files = load_files("M\tsrc/a.rs\nA\tb.txt\n");
    assert_eq!(files.len(), 2);
    assert_eq!(files[0].status, 'M');
    assert_eq!(files[0].path, "src/a.rs");
    assert_eq!(first_commit(Some("abc")), "abc");
    assert_eq!(first_commit(None), "");
}
