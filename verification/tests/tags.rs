use sluuz::app::tags::{haystack, mark_tags, range_label, Scope, Since};
use sluuz::git::load::{Tag, TagState};
use sluuz::git::tags::{parse_ls_remote, tag_copy, RemoteTag, RemoteTags};

fn tag(name: &str, object: &str, state: TagState) -> Tag {
    Tag {
        name: name.into(),
        date: "2026-01-01 10:00".into(),
        annotated: false,
        object: object.into(),
        commit: object.into(),
        subject: "s".into(),
        state,
    }
}

fn remote(name: &str, object: &str, commit: &str) -> (String, RemoteTag) {
    (name.to_string(), RemoteTag { object: object.into(), commit: commit.into() })
}

#[test]
fn ls_remote_pairs_an_annotated_tag_with_its_commit() {
    let out = "aaa\trefs/tags/v1\nbbb\trefs/tags/v1^{}\nccc\trefs/tags/v2\nddd\trefs/heads/main\n";
    let tags = parse_ls_remote(out);
    assert_eq!(tags.len(), 2);
    assert_eq!(tags[0].0, "v1");
    assert_eq!(tags[0].1.object, "aaa");
    assert_eq!(tags[0].1.commit, "bbb");
    assert_eq!(tags[1].0, "v2");
    assert_eq!(tags[1].1.object, "ccc");
    assert_eq!(tags[1].1.commit, "ccc");
}

#[test]
fn the_peeled_line_may_come_first() {
    let tags = parse_ls_remote("bbb\trefs/tags/v1^{}\naaa\trefs/tags/v1\n");
    assert_eq!(tags.len(), 1);
    assert_eq!(tags[0].1.object, "aaa");
    assert_eq!(tags[0].1.commit, "bbb");
}

#[test]
fn gits_copy_reads_back_under_its_prefix() {
    let s = '\u{1f}';
    let out = format!(
        "refs/remote-tags/origin/v1{s}obj{s}com\nrefs/remote-tags/origin/v2{s}c2{s}\nrefs/remote-tags/fork/v3{s}x{s}\n"
    );
    let tags = tag_copy(Some(&out), "origin");
    assert_eq!(tags.len(), 2);
    assert_eq!(tags[0].0, "v1");
    assert_eq!(tags[0].1.commit, "com");
    assert_eq!(tags[1].0, "v2");
    assert_eq!(tags[1].1.commit, "c2");
    assert!(tag_copy(None, "origin").is_empty());
}

#[test]
fn tags_are_marked_against_the_remote() {
    let here = vec![
        tag("v3", "o3", TagState::Unknown),
        tag("v2", "o2", TagState::Unknown),
        tag("gone", "x", TagState::Remote),
        tag("v1", "o1", TagState::Unknown),
    ];
    let answer = RemoteTags::Answered {
        remote: "origin".into(),
        tags: vec![
            remote("v2", "o2", "o2"),
            remote("a-new", "n", "c"),
            remote("v1", "other", "other"),
            remote("z-new", "z", "z"),
        ],
        fresh: true,
    };
    let marked = mark_tags(here, Some(&answer));
    let names: Vec<&str> = marked.iter().map(|t| t.name.as_str()).collect();
    assert_eq!(names, vec!["v3", "v2", "v1", "z-new", "a-new"]);
    let states: Vec<TagState> = marked.iter().map(|t| t.state).collect();
    assert_eq!(
        states,
        vec![TagState::Local, TagState::Pushed, TagState::Differs, TagState::Remote, TagState::Remote]
    );
    assert!(marked[4].annotated);
    assert!(!marked[3].annotated);
    assert_eq!(marked[4].commit, "c");
}

#[test]
fn with_no_remote_nothing_is_pushed() {
    let here = vec![tag("v1", "o1", TagState::Pushed), tag("r", "x", TagState::Remote)];
    let marked = mark_tags(here, Some(&RemoteTags::NoRemote));
    assert_eq!(marked.len(), 1);
    assert_eq!(marked[0].state, TagState::Local);
    let unmarked = mark_tags(vec![tag("v1", "o1", TagState::Pushed)], None);
    assert_eq!(unmarked[0].state, TagState::Pushed);
    let unreachable =
        mark_tags(vec![tag("v1", "o1", TagState::Differs)], Some(&RemoteTags::Unreachable("origin".into())));
    assert_eq!(unreachable[0].state, TagState::Differs);
}

#[test]
fn the_tabs_and_labels_of_tags() {
    assert!(Scope::Local.keeps(&tag("a", "o", TagState::Local)));
    assert!(!Scope::Local.keeps(&tag("a", "o", TagState::Remote)));
    assert!(Scope::Remote.keeps(&tag("a", "o", TagState::Differs)));
    assert!(!Scope::Remote.keeps(&tag("a", "o", TagState::Local)));
    assert_eq!(TagState::Remote.label(), "remote only");
    assert_eq!(TagState::Unknown.label(), "");
    assert_eq!(haystack(&tag("v1", "o", TagState::Pushed)), "v1 pushed 2026-01-01 10:00 s");
    assert_eq!(range_label("v0.6.5", &Since::Tag("v0.6.4".into())), "new in v0.6.5 since v0.6.4");
    assert_eq!(range_label("v0.1.0", &Since::Start), "everything up to v0.1.0");
    assert_eq!(range_label("v2", &Since::Asking), "new in v2");
}
