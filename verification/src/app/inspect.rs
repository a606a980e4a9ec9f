//! `K`: everything about the row under the cursor that its line has no room
//! for, as a reader box's title, key/value rows and free text. What that is
//! depends on the level: a repo, a branch, a tag, or at the commits and the
//! diff, the commit. Reading git for it is the program's part.

use crate::app::branches::push_text;
use crate::git::load::{label_views, ref_texts, Branch, Commit, CommitDetails, Tag, TagState};
use crate::git::RepoStatus;
use crate::num::{decimal, decimal_of};
use crate::text::{
    string_views, chars_of, concat, contains, contains_in, join, join_in, lines, lines_in, seqs, slice_vec,
    string_of,
};
use crate::tui::widgets::row_views;
use vstd::prelude::*;

verus! {

/// What a reader box shows: its title, its rows, and text under them.
pub type Inspected = (String, Vec<(String, String)>, String);

pub type RowV = (Seq<char>, Seq<char>);

/// `1 commit`, `3 commits`.
pub open spec fn count_of(n: nat, noun: Seq<char>) -> Seq<char> {
    if n == 1 {
        seq!['1', ' '] + noun
    } else {
        decimal(n) + seq![' '] + noun + seq!['s']
    }
}

pub fn count(n: usize, noun: &str) -> (s: String)
    ensures
        s@ == count_of(n as nat, noun@),
{
    let sp = [' '];
    assert(sp@ =~= seq![' ']);
    if n == 1 {
        let one = ['1', ' '];
        assert(one@ =~= seq!['1', ' ']);
        string_of(&concat(&one, &chars_of(noun)))
    } else {
        let a = concat(&decimal_of(n as u64), &sp);
        let b = concat(&a, &chars_of(noun));
        let s = ['s'];
        assert(s@ =~= seq!['s']);
        string_of(&concat(&b, &s))
    }
}

fn row(key: &str, value: Vec<char>) -> (r: (String, String))
    ensures
        r.0@ == key@,
        r.1@ == value@,
{
    (string_of(&chars_of(key)), string_of(&value))
}

fn push_row(rows: &mut Vec<(String, String)>, r: (String, String))
    ensures
        row_views(final(rows)@) == row_views(old(rows)@).push((r.0@, r.1@)),
{
    let ghost before = row_views(rows@);
    let ghost rv = (r.0@, r.1@);
    rows.push(r);
    assert(row_views(rows@) =~= before.push(rv));
}

// ── a repo ──────────────────────────────────────────────────────────────────

/// What a repo's working tree and branch amount to, in words.
pub open spec fn repo_state_parts(r: RepoStatus) -> Seq<Seq<char>> {
    let a: Seq<Seq<char>> = if r.dirty > 0 {
        seq![count_of(r.dirty as nat, "changed file"@)]
    } else {
        seq![]
    };
    let b = if r.ahead > 0 {
        a.push(count_of(r.ahead as nat, "commit"@) + " to push"@)
    } else {
        a
    };
    let c = if r.behind > 0 {
        b.push(count_of(r.behind as nat, "commit"@) + " to pull"@)
    } else {
        b
    };
    let d = if c.len() == 0 {
        seq!["clean"@]
    } else {
        c
    };
    if !r.has_upstream {
        d.push(seq!['`'] + r.branch@ + "` tracks no upstream"@)
    } else {
        d
    }
}

fn push_part(parts: &mut Vec<Vec<char>>, p: Vec<char>)
    ensures
        seqs(final(parts)@) == seqs(old(parts)@).push(p@),
{
    let ghost before = seqs(parts@);
    let ghost pv = p@;
    parts.push(p);
    assert(seqs(parts@) =~= before.push(pv));
}

fn repo_state(r: &RepoStatus) -> (s: Vec<char>)
    ensures
        s@ == join(repo_state_parts(*r), ", "@),
{
    let mut parts: Vec<Vec<char>> = Vec::new();
    assert(seqs(parts@) =~= Seq::<Seq<char>>::empty());
    if r.dirty > 0 {
        push_part(&mut parts, chars_of(count(r.dirty, "changed file").as_str()));
    }
    if r.ahead > 0 {
        let c = count(r.ahead, "commit");
        push_part(&mut parts, concat(&chars_of(c.as_str()), &chars_of(" to push")));
    }
    if r.behind > 0 {
        let c = count(r.behind, "commit");
        push_part(&mut parts, concat(&chars_of(c.as_str()), &chars_of(" to pull")));
    }
    if parts.len() == 0 {
        push_part(&mut parts, chars_of("clean"));
    }
    if !r.has_upstream {
        let tick = ['`'];
        assert(tick@ =~= seq!['`']);
        let a = concat(&tick, &chars_of(r.branch.as_str()));
        push_part(&mut parts, concat(&a, &chars_of("` tracks no upstream")));
    }
    assert(seqs(parts@) =~= repo_state_parts(*r));
    join_in(&parts, &chars_of(", "))
}

pub open spec fn repo_rows(r: RepoStatus, path: Seq<char>, remotes: Seq<RowV>) -> Seq<RowV> {
    let base = seq![
        ("path"@, path),
        ("branch"@, r.branch@),
        ("state"@, join(repo_state_parts(r), ", "@)),
    ];
    (if remotes.len() == 0 {
        base.push(("remotes"@, "none"@))
    } else {
        base
    }) + remotes
}

/// A repo: where it is (`path`, made absolute where it could be), what it is
/// on, its state, and every remote with the URL it fetches from.
pub fn inspect_repo(r: &RepoStatus, path: String, remotes: Vec<(String, String)>) -> (i: Inspected)
    ensures
        i.0@ == "repo "@ + r.name@,
        row_views(i.1@) == repo_rows(*r, path@, row_views(remotes@)),
        i.2@ == Seq::<char>::empty(),
{
    let mut rows: Vec<(String, String)> = Vec::new();
    let ghost pv = path@;
    push_row(&mut rows, (string_of(&chars_of("path")), path));
    push_row(&mut rows, row("branch", chars_of(r.branch.as_str())));
    push_row(&mut rows, row("state", repo_state(r)));
    if remotes.len() == 0 {
        push_row(&mut rows, row("remotes", chars_of("none")));
    }
    let ghost before = row_views(rows@);
    let ghost rv = row_views(remotes@);
    let mut remotes = remotes;
    rows.append(&mut remotes);
    assert(row_views(rows@) =~= before + rv);
    assert(row_views(rows@) =~= repo_rows(*r, pv, rv));
    let title = concat(&chars_of("repo "), &chars_of(r.name.as_str()));
    (string_of(&title), rows, String::new())
}

// ── a branch ────────────────────────────────────────────────────────────────

/// Where a local branch stands against its upstream, in words.
pub open spec fn push_state_of(b: Branch) -> Seq<char> {
    if !b.has_upstream {
        "none: never pushed, or pushed without -u"@
    } else if contains(b.track@, "gone"@) {
        b.upstream@ + ", deleted on the remote"@
    } else if push_text(b.remote, b.has_upstream, b.track@) == "synced"@ {
        b.upstream@ + ", in sync"@
    } else {
        b.upstream@ + ", "@ + push_text(b.remote, b.has_upstream, b.track@)
    }
}

pub fn push_state(b: &Branch) -> (s: String)
    ensures
        s@ == push_state_of(*b),
{
    if !b.has_upstream {
        return string_of(&chars_of("none: never pushed, or pushed without -u"));
    }
    let up = chars_of(b.upstream.as_str());
    if contains_in(&chars_of(b.track.as_str()), &chars_of("gone")) {
        return string_of(&concat(&up, &chars_of(", deleted on the remote")));
    }
    let st = chars_of(b.status().as_str());
    if crate::text::same(&st, &chars_of("synced")) {
        string_of(&concat(&up, &chars_of(", in sync")))
    } else {
        let a = concat(&up, &chars_of(", "));
        string_of(&concat(&a, &st))
    }
}

/// The first line of a message, or nothing.
pub open spec fn first_line_or_empty(s: Seq<char>) -> Seq<char> {
    if lines(s).len() > 0 {
        lines(s)[0]
    } else {
        seq![]
    }
}

fn first_of(s: &str) -> (r: Vec<char>)
    ensures
        r@ == first_line_or_empty(s@),
{
    let ls = lines_in(&chars_of(s));
    if ls.len() > 0 {
        assert(seqs(ls@)[0] == ls@[0]@);
        let v = slice_vec(&ls[0], 0, ls[0].len());
        assert(v@ =~= ls@[0]@);
        v
    } else {
        Vec::new()
    }
}

pub open spec fn branch_rows(b: Branch, own: usize, details: Option<CommitDetails>) -> Seq<RowV> {
    let top: Seq<RowV> = if b.remote {
        seq![("kind"@, "remote branch"@)]
    } else {
        let a: Seq<RowV> = if b.is_head {
            seq![("checked out"@, "yes"@)]
        } else {
            seq![]
        };
        let c = a.push(("upstream"@, push_state_of(b)));
        if own > 0 {
            c.push(("on no remote"@, count_of(own as nat, "commit"@)))
        } else {
            c
        }
    };
    match details {
        Some(d) => top.push(("last commit"@, d.authored@)).push(("by"@, d.author@)),
        None => top,
    }
}

/// A branch: a remote one says so; a local one whether it is checked out,
/// where it stands against its upstream and how many of its commits (`own`)
/// no remote has; then its last commit (`details`), whose first line is the
/// text under the rows.
pub fn inspect_branch(b: &Branch, own: usize, details: Option<CommitDetails>) -> (i: Inspected)
    ensures
        i.0@ == "branch "@ + b.name@,
        row_views(i.1@) == branch_rows(*b, own, details),
        i.2@ == match details {
            Some(d) => first_line_or_empty(d.message@),
            None => Seq::<char>::empty(),
        },
{
    let mut rows: Vec<(String, String)> = Vec::new();
    assert(row_views(rows@) =~= Seq::<RowV>::empty());
    if b.remote {
        push_row(&mut rows, row("kind", chars_of("remote branch")));
    } else {
        if b.is_head {
            push_row(&mut rows, row("checked out", chars_of("yes")));
        }
        push_row(&mut rows, row("upstream", chars_of(push_state(b).as_str())));
        if own > 0 {
            push_row(&mut rows, row("on no remote", chars_of(count(own, "commit").as_str())));
        }
    }
    let ghost top = row_views(rows@);
    let text = match &details {
        Some(d) => {
            push_row(&mut rows, row("last commit", chars_of(d.authored.as_str())));
            push_row(&mut rows, row("by", chars_of(d.author.as_str())));
            string_of(&first_of(d.message.as_str()))
        },
        None => String::new(),
    };
    let title = concat(&chars_of("branch "), &chars_of(b.name.as_str()));
    (string_of(&title), rows, text)
}

// ── a tag ───────────────────────────────────────────────────────────────────

/// Where a tag stands, said against the remote it is compared with.
pub open spec fn tag_state_words(s: TagState, remote: Seq<char>) -> Option<Seq<char>> {
    match s {
        TagState::Unknown => None,
        TagState::Local => Some("not on "@ + remote),
        TagState::Pushed => Some("pushed to "@ + remote),
        TagState::Differs => Some(remote + " has a different tag by this name"@),
        TagState::Remote => Some("only on "@ + remote + ", not fetched here"@),
    }
}

/// At most the first `n` characters.
pub open spec fn prefix_of(s: Seq<char>, n: int) -> Seq<char> {
    s.take(if s.len() < n {
        s.len() as int
    } else {
        n
    })
}

fn prefix(s: &str, n: usize) -> (r: Vec<char>)
    ensures
        r@ == prefix_of(s@, n as int),
{
    let cs = chars_of(s);
    let k = if cs.len() < n {
        cs.len()
    } else {
        n
    };
    slice_vec(&cs, 0, k)
}

pub open spec fn tag_rows(t: Tag, remote: Seq<char>, details: Option<(Seq<char>, Seq<char>)>) -> Seq<RowV> {
    let a = seq![("kind"@, if t.annotated { "annotated"@ } else { "lightweight"@ })];
    let b = match tag_state_words(t.state, remote) {
        Some(w) => a.push(("remote"@, w)),
        None => a,
    };
    let c = if t.commit@.len() > 0 {
        b.push(("commit"@, prefix_of(t.commit@, 8)))
    } else {
        b
    };
    let d = c.push(("date"@, t.date@));
    match details {
        Some((tagger, _)) => d.push(("tagger"@, tagger)),
        None => if t.subject@.len() > 0 {
            d.push(("subject"@, t.subject@))
        } else {
            d
        },
    }
}

/// A tag: what kind it is, where it stands against `remote` (the remote's
/// name, when there is one), its commit and date, then its tagger with the
/// message under the rows, or for a lightweight one its commit's subject.
pub fn inspect_tag(t: &Tag, remote: Option<&str>, details: Option<(String, String)>) -> (i: Inspected)
    ensures
        ({
            let rn = match remote {
                Some(r) => r@,
                None => "the remote"@,
            };
            let dv = match details {
                Some((a, b)) => Some((a@, b@)),
                None => None,
            };
            &&& i.0@ == "tag "@ + t.name@
            &&& row_views(i.1@) == tag_rows(*t, rn, dv)
            &&& i.2@ == match dv {
                Some((_, m)) => m,
                None => Seq::<char>::empty(),
            }
        }),
{
    let rn = match remote {
        Some(r) => chars_of(r),
        None => chars_of("the remote"),
    };
    let mut rows: Vec<(String, String)> = Vec::new();
    assert(row_views(rows@) =~= Seq::<RowV>::empty());
    push_row(
        &mut rows,
        row(
            "kind",
            if t.annotated {
                chars_of("annotated")
            } else {
                chars_of("lightweight")
            },
        ),
    );
    let state = match t.state {
        TagState::Unknown => None,
        TagState::Local => Some(concat(&chars_of("not on "), &rn)),
        TagState::Pushed => Some(concat(&chars_of("pushed to "), &rn)),
        TagState::Differs => Some(concat(&rn, &chars_of(" has a different tag by this name"))),
        TagState::Remote => {
            let a = concat(&chars_of("only on "), &rn);
            Some(concat(&a, &chars_of(", not fetched here")))
        },
    };
    match state {
        Some(w) => push_row(&mut rows, row("remote", w)),
        None => {},
    }
    if !t.commit.as_str().is_empty() {
        push_row(&mut rows, row("commit", prefix(t.commit.as_str(), 8)));
    }
    push_row(&mut rows, row("date", chars_of(t.date.as_str())));
    let text = match details {
        Some((tagger, message)) => {
            push_row(&mut rows, (string_of(&chars_of("tagger")), tagger));
            message
        },
        None => {
            if !t.subject.as_str().is_empty() {
                push_row(&mut rows, row("subject", chars_of(t.subject.as_str())));
            }
            String::new()
        },
    };
    let title = concat(&chars_of("tag "), &chars_of(t.name.as_str()));
    (string_of(&title), rows, text)
}

// ── a commit ────────────────────────────────────────────────────────────────

/// A commit's parents, in words.
pub open spec fn parents_words(p: Seq<Seq<char>>) -> Seq<char> {
    if p.len() == 0 {
        "none, the first commit"@
    } else if p.len() == 1 {
        p[0]
    } else {
        join(p, seq![' ']) + " (a merge)"@
    }
}

pub open spec fn commit_rows(c: Commit, d: CommitDetails, unpushed: bool, stash: bool) -> Seq<RowV> {
    let a = seq![("hash"@, c.hash@)];
    let b = if c.refs@.len() > 0 {
        a.push(("refs"@, join(ref_texts(c.refs@), ", "@)))
    } else {
        a
    };
    let e = if !stash {
        b.push(("remote"@, if unpushed { "on no remote yet"@ } else { "pushed"@ }))
    } else {
        b
    };
    let f = e.push(("author"@, d.author@)).push(("date"@, d.authored@));
    let g = if d.committer@ != d.author@ {
        f.push(("committer"@, d.committer@))
    } else {
        f
    };
    let h = if d.committed@ != d.authored@ {
        g.push(("committed"@, d.committed@))
    } else {
        g
    };
    if stash {
        h.push(
            (
                "made on"@,
                prefix_of(
                    if d.parents@.len() > 0 {
                        d.parents@[0]@
                    } else {
                        seq![]
                    },
                    8,
                ),
            ),
        )
    } else {
        h.push(("parents"@, parents_words(string_views(d.parents@))))
    }
}

fn string_vecs(v: &Vec<String>) -> (r: Vec<Vec<char>>)
    ensures
        seqs(r@) == string_views(v@),
{
    let mut r: Vec<Vec<char>> = Vec::new();
    let mut k: usize = 0;
    while k < v.len()
        invariant
            k <= v@.len(),
            seqs(r@) == string_views(v@).take(k as int),
        decreases v@.len() - k,
    {
        push_part(&mut r, chars_of(v[k].as_str()));
        assert(string_views(v@).take(k + 1) =~= string_views(v@).take(k as int).push(v@[k as int]@));
        k = k + 1;
    }
    assert(string_views(v@).take(v@.len() as int) =~= string_views(v@));
    r
}

fn ref_text_vecs(c: &Commit) -> (r: Vec<Vec<char>>)
    ensures
        seqs(r@) == ref_texts(c.refs@),
{
    let mut r: Vec<Vec<char>> = Vec::new();
    let mut k: usize = 0;
    while k < c.refs.len()
        invariant
            k <= c.refs@.len(),
            seqs(r@) == ref_texts(c.refs@).take(k as int),
        decreases c.refs@.len() - k,
    {
        let t = c.refs[k].text();
        push_part(&mut r, chars_of(t.as_str()));
        assert(ref_texts(c.refs@).take(k + 1) =~= ref_texts(c.refs@).take(k as int).push(
            ref_texts(c.refs@)[k as int],
        ));
        k = k + 1;
    }
    assert(ref_texts(c.refs@).take(c.refs@.len() as int) =~= ref_texts(c.refs@));
    r
}

/// A commit: its hash and refs, whether a remote has it (`unpushed` says
/// not; a stash is never pushed, and saying so on every one says nothing),
/// who wrote and committed it and when, and its parents - for a stash only
/// the commit it was made on, its other parents holding its index and
/// untracked files. The whole message is the text under the rows.
pub fn inspect_commit(c: &Commit, d: CommitDetails, unpushed: bool, stash: bool) -> (i: Inspected)
    ensures
        i.0@ == if stash {
            c.short@
        } else {
            "commit "@ + c.short@
        },
        row_views(i.1@) == commit_rows(*c, d, unpushed, stash),
        i.2@ == d.message@,
{
    let ghost dv = d;
    let mut rows: Vec<(String, String)> = Vec::new();
    assert(row_views(rows@) =~= Seq::<RowV>::empty());
    push_row(&mut rows, row("hash", chars_of(c.hash.as_str())));
    if c.refs.len() > 0 {
        let texts = ref_text_vecs(c);
        push_row(&mut rows, row("refs", join_in(&texts, &chars_of(", "))));
    }
    if !stash {
        push_row(
            &mut rows,
            row(
                "remote",
                if unpushed {
                    chars_of("on no remote yet")
                } else {
                    chars_of("pushed")
                },
            ),
        );
    }
    push_row(&mut rows, row("author", chars_of(d.author.as_str())));
    push_row(&mut rows, row("date", chars_of(d.authored.as_str())));
    if d.committer != d.author {
        push_row(&mut rows, row("committer", chars_of(d.committer.as_str())));
    }
    if d.committed != d.authored {
        push_row(&mut rows, row("committed", chars_of(d.committed.as_str())));
    }
    if stash {
        let base = if d.parents.len() > 0 {
            prefix(d.parents[0].as_str(), 8)
        } else {
            Vec::new()
        };
        assert(d.parents@.len() == 0 ==> base@ =~= prefix_of(Seq::<char>::empty(), 8));
        push_row(&mut rows, row("made on", base));
        return (string_of(&chars_of(c.short.as_str())), rows, d.message);
    }
    let ps = string_vecs(&d.parents);
    assert(seqs(ps@).len() == ps@.len());
    assert(string_views(d.parents@).len() == d.parents@.len());
    let parents = if d.parents.len() == 0 {
        chars_of("none, the first commit")
    } else if d.parents.len() == 1 {
        assert(seqs(ps@)[0] == ps@[0]@);
        slice_vec(&ps[0], 0, ps[0].len())
    } else {
        let sp = [' '];
        assert(sp@ =~= seq![' ']);
        concat(&join_in(&ps, &sp), &chars_of(" (a merge)"))
    };
    assert(parents@ =~= parents_words(string_views(d.parents@)));
    push_row(&mut rows, row("parents", parents));
    let title = concat(&chars_of("commit "), &chars_of(c.short.as_str()));
    (string_of(&title), rows, d.message)
}

} // verus!
