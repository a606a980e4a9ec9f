//! A remote's tags as git reports them: `ls-remote --tags` asked over the
//! network, or git's own copy under `refs/remote-tags/` read with
//! `for-each-ref`. Both come back as one entry per tag name.

use crate::git::load::{fields, fields_in, peeled_or};
use crate::text::strip_prefix_in;
use crate::text::{
    chars_of, concat, ends_with_in, lines, lines_in, same, seqs, slice_vec, split_once,
    split_once_in, string_of, strip_prefix, strip_suffix,
};
use vstd::prelude::*;

verus! {

/// A remote's side of a tag, as `git ls-remote` reports it.
pub struct RemoteTag {
    pub object: String,
    pub commit: String,
}

impl Default for RemoteTag {
    fn default() -> (t: RemoteTag)
        ensures
            t.object@ == Seq::<char>::empty(),
            t.commit@ == Seq::<char>::empty(),
    {
        RemoteTag { object: String::new(), commit: String::new() }
    }
}

/// What asking the remote for its tags came back with.
pub enum RemoteTags {
    NoRemote,
    /// Offline, or it wanted a credential typed in. Names the remote asked.
    Unreachable(String),
    Answered {
        remote: String,
        /// One entry per tag name.
        tags: Vec<(String, RemoteTag)>,
        /// False when this is git's copy as of the last fetch rather than what
        /// the remote just said: shown while it is asked again, and kept when
        /// it cannot be.
        fresh: bool,
    },
}

/// A remote tag as the contracts see it: its name, the object its ref names,
/// and the commit under that.
pub type EntryV = (Seq<char>, Seq<char>, Seq<char>);

pub open spec fn entry_views(v: Seq<(String, RemoteTag)>) -> Seq<EntryV> {
    v.map_values(|e: (String, RemoteTag)| (e.0@, e.1.object@, e.1.commit@))
}

/// No tag name is listed twice.
pub open spec fn names_unique(v: Seq<EntryV>) -> bool {
    forall|i: int, j: int| 0 <= i < j < v.len() ==> v[i].0 != v[j].0
}

/// `i` is where the entry named `name` stands.
pub open spec fn is_name_at(v: Seq<EntryV>, name: Seq<char>, i: int) -> bool {
    0 <= i < v.len() && v[i].0 == name && forall|j: int| 0 <= j < i ==> v[j].0 != name
}

pub open spec fn name_index(v: Seq<EntryV>, name: Seq<char>) -> Option<int> {
    if exists|i: int| is_name_at(v, name, i) {
        Some(choose|i: int| is_name_at(v, name, i))
    } else {
        None
    }
}

/// The entry for `name`, added empty at the end when there is none yet: what
/// `HashMap::entry(..).or_default()` hands back, and where it now stands.
pub open spec fn entry_for(v: Seq<EntryV>, name: Seq<char>) -> (Seq<EntryV>, int) {
    match name_index(v, name) {
        Some(i) => (v, i),
        None => (v.push((name, seq![], seq![])), v.len() as int),
    }
}

/// One line of `git ls-remote --tags`, `<sha>\t<ref>`, read into the entries
/// so far. An annotated tag is listed twice: the tag object, then the commit
/// under it as `<name>^{}`; a lightweight tag only once, its commit being
/// what its ref names. Any other line changes nothing.
pub open spec fn ls_remote_step(acc: Seq<EntryV>, line: Seq<char>) -> Seq<EntryV> {
    match split_once(line, seq!['\t']) {
        Some((sha, r)) => match strip_prefix(r, "refs/tags/"@) {
            Some(n0) => {
                let (name, peeled) = match strip_suffix(n0, "^{}"@) {
                    Some(n) => (n, true),
                    None => (n0, false),
                };
                let (v, i) = entry_for(acc, name);
                let e = v[i];
                if peeled {
                    v.update(i, (e.0, e.1, sha))
                } else {
                    v.update(
                        i,
                        (
                            e.0,
                            sha,
                            if e.2.len() == 0 {
                                sha
                            } else {
                                e.2
                            },
                        ),
                    )
                }
            },
            None => acc,
        },
        None => acc,
    }
}

pub open spec fn ls_remote_fold(ls: Seq<Seq<char>>) -> Seq<EntryV>
    decreases ls.len(),
{
    if ls.len() == 0 {
        seq![]
    } else {
        ls_remote_step(ls_remote_fold(ls.drop_last()), ls.last())
    }
}

/// Where the entry named `name` stands, if anywhere.
fn find_name(v: &Vec<(String, RemoteTag)>, name: &[char]) -> (r: Option<usize>)
    ensures
        match r {
            Some(i) => name_index(entry_views(v@), name@) == Some(i as int) && i < v@.len(),
            None => name_index(entry_views(v@), name@) is None,
        },
{
    let ghost ev = entry_views(v@);
    let mut i: usize = 0;
    while i < v.len()
        invariant
            i <= v@.len(),
            ev == entry_views(v@),
            forall|j: int| 0 <= j < i ==> ev[j].0 != name@,
        decreases v@.len() - i,
    {
        if same(&chars_of(v[i].0.as_str()), name) {
            assert(is_name_at(ev, name@, i as int));
            assert(name_index(ev, name@) == Some(i as int)) by {
                let k = choose|k: int| is_name_at(ev, name@, k);
                if k < i {
                } else if k > i {
                }
            }
            return Some(i);
        }
        i = i + 1;
    }
    assert(!exists|k: int| is_name_at(ev, name@, k));
    None
}

/// Put `e` at `i` in place of what stood there.
fn replace_at(v: &mut Vec<(String, RemoteTag)>, i: usize, e: (String, RemoteTag))
    requires
        i < old(v)@.len(),
    ensures
        entry_views(final(v)@) == entry_views(old(v)@).update(
            i as int,
            (e.0@, e.1.object@, e.1.commit@),
        ),
{
    let ghost before = entry_views(v@);
    let ghost ev = (e.0@, e.1.object@, e.1.commit@);
    v.remove(i);
    v.insert(i, e);
    assert(entry_views(v@) =~= before.update(i as int, ev));
}

fn add_entry(v: &mut Vec<(String, RemoteTag)>, e: (String, RemoteTag))
    ensures
        entry_views(final(v)@) == entry_views(old(v)@).push((e.0@, e.1.object@, e.1.commit@)),
{
    let ghost before = entry_views(v@);
    let ghost ev = (e.0@, e.1.object@, e.1.commit@);
    v.push(e);
    assert(entry_views(v@) =~= before.push(ev));
}

/// Read one `ls-remote` line into `tags`.
fn read_ls_line(tags: &mut Vec<(String, RemoteTag)>, line: &[char])
    ensures
        entry_views(final(tags)@) == ls_remote_step(entry_views(old(tags)@), line@),
{
    let tab = ['\t'];
    assert(tab@ =~= seq!['\t']);
    let (sha, r) = match split_once_in(line, &tab) {
        Some(p) => p,
        None => {
            return;
        },
    };
    let n0 = match strip_prefix_in(&r, &chars_of("refs/tags/")) {
        Some(n) => n,
        None => {
            return;
        },
    };
    let suffix = chars_of("^{}");
    let peeled = ends_with_in(&n0, &suffix);
    let name = if peeled {
        slice_vec(&n0, 0, n0.len() - suffix.len())
    } else {
        slice_vec(&n0, 0, n0.len())
    };
    assert(n0@.subrange(0, n0@.len() as int) =~= n0@);
    let ghost acc = entry_views(tags@);
    let i = match find_name(tags, &name) {
        Some(i) => {
            assert(entry_for(acc, name@) == (acc, i as int));
            i
        },
        None => {
            let fresh = RemoteTag { object: String::new(), commit: String::new() };
            add_entry(tags, (string_of(&name), fresh));
            assert(entry_views(tags@) =~= acc.push((name@, seq![], seq![])));
            assert(tags@.len() == entry_views(tags@).len());
            let last = tags.len() - 1;
            assert(entry_for(acc, name@) == (entry_views(tags@), last as int));
            last
        },
    };
    let ghost v = entry_views(tags@);
    assert(entry_for(acc, name@) == (v, i as int));
    let e = (
        string_of(&name),
        if peeled {
            RemoteTag { object: tags[i].1.object.clone(), commit: string_of(&sha) }
        } else {
            let commit = if tags[i].1.commit.as_str().is_empty() {
                string_of(&sha)
            } else {
                tags[i].1.commit.clone()
            };
            RemoteTag { object: string_of(&sha), commit }
        },
    );
    assert(v[i as int].0 == name@);
    replace_at(tags, i, e);
}

/// `git ls-remote --tags` read back: one entry per tag, in the order the
/// names first appear.
pub fn parse_ls_remote(out: &str) -> (r: Vec<(String, RemoteTag)>)
    ensures
        entry_views(r@) == ls_remote_fold(lines(out@)),
{
    let ls = lines_in(&chars_of(out));
    let ghost all = seqs(ls@);
    let mut tags: Vec<(String, RemoteTag)> = Vec::new();
    let mut k: usize = 0;
    assert(entry_views(tags@) =~= ls_remote_fold(all.take(0)));
    while k < ls.len()
        invariant
            k <= ls@.len(),
            all == seqs(ls@),
            entry_views(tags@) == ls_remote_fold(all.take(k as int)),
        decreases ls@.len() - k,
    {
        assert(all.take(k + 1).drop_last() =~= all.take(k as int));
        assert(all.take(k + 1).last() == ls@[k as int]@);
        read_ls_line(&mut tags, &ls[k]);
        k = k + 1;
    }
    assert(all.take(ls@.len() as int) =~= all);
    tags
}

/// The entries with `(name, object, commit)` in place of what stood under
/// `name`, or added at the end when it is new: `HashMap::insert` as a list.
pub open spec fn upsert(v: Seq<EntryV>, e: EntryV) -> Seq<EntryV> {
    match name_index(v, e.0) {
        Some(i) => v.update(i, e),
        None => v.push(e),
    }
}

/// The ref prefix git keeps `remote`'s tags under.
pub open spec fn copy_prefix(remote: Seq<char>) -> Seq<char> {
    "refs/remote-tags/"@ + remote + seq!['/']
}

/// One `for-each-ref --format=%(refname)SEP%(objectname)SEP%(*objectname)`
/// line of git's copy read into the entries so far: a ref under `prefix` with
/// at least its object gives a tag, whose commit is the peeled object when
/// there is one. Anything else changes nothing.
pub open spec fn copy_step(acc: Seq<EntryV>, line: Seq<char>, prefix: Seq<char>) -> Seq<EntryV> {
    let f = fields(line);
    if f.len() >= 2 {
        match strip_prefix(f[0], prefix) {
            Some(name) => {
                let peeled = if f.len() >= 3 {
                    f[2]
                } else {
                    seq![]
                };
                upsert(acc, (name, f[1], peeled_or(f[1], peeled)))
            },
            None => acc,
        }
    } else {
        acc
    }
}

pub open spec fn copy_fold(ls: Seq<Seq<char>>, prefix: Seq<char>) -> Seq<EntryV>
    decreases ls.len(),
{
    if ls.len() == 0 {
        seq![]
    } else {
        copy_step(copy_fold(ls.drop_last(), prefix), ls.last(), prefix)
    }
}

fn read_copy_line(tags: &mut Vec<(String, RemoteTag)>, line: &[char], prefix: &[char])
    ensures
        entry_views(final(tags)@) == copy_step(entry_views(old(tags)@), line@, prefix@),
{
    let s = string_of(line);
    let f = fields_in(s.as_str());
    if f.len() < 2 {
        return;
    }
    assert(seqs(f@)[0] == f@[0]@);
    assert(seqs(f@)[1] == f@[1]@);
    let name = match strip_prefix_in(&f[0], prefix) {
        Some(n) => n,
        None => {
            return;
        },
    };
    let peeled = if f.len() >= 3 {
        assert(seqs(f@)[2] == f@[2]@);
        slice_vec(&f[2], 0, f[2].len())
    } else {
        Vec::new()
    };
    assert(f.len() >= 3 ==> peeled@ =~= f@[2]@);
    let object = string_of(&f[1]);
    let commit = if peeled.len() == 0 {
        assert(peeled@ =~= Seq::<char>::empty());
        string_of(&f[1])
    } else {
        string_of(&peeled)
    };
    let e = (string_of(&name), RemoteTag { object, commit });
    match find_name(tags, &name) {
        Some(i) => replace_at(tags, i, e),
        None => add_entry(tags, e),
    }
}

/// git's copy of `remote`'s tags, as of the last fetch or push, from what
/// `for-each-ref` listed under `refs/remote-tags/<remote>/`; nothing when git
/// could not answer.
pub fn tag_copy(listing: Option<&str>, remote: &str) -> (r: Vec<(String, RemoteTag)>)
    ensures
        entry_views(r@) == match listing {
            Some(out) => copy_fold(lines(out@), copy_prefix(remote@)),
            None => Seq::<EntryV>::empty(),
        },
{
    let mut tags: Vec<(String, RemoteTag)> = Vec::new();
    let out = match listing {
        Some(o) => o,
        None => {
            assert(entry_views(tags@) =~= Seq::<EntryV>::empty());
            return tags;
        },
    };
    let slash = ['/'];
    assert(slash@ =~= seq!['/']);
    let a = concat(&chars_of("refs/remote-tags/"), &chars_of(remote));
    let prefix = concat(&a, &slash);
    let ls = lines_in(&chars_of(out));
    let ghost all = seqs(ls@);
    let mut k: usize = 0;
    assert(entry_views(tags@) =~= copy_fold(all.take(0), prefix@));
    while k < ls.len()
        invariant
            k <= ls@.len(),
            all == seqs(ls@),
            prefix@ == copy_prefix(remote@),
            entry_views(tags@) == copy_fold(all.take(k as int), prefix@),
        decreases ls@.len() - k,
    {
        assert(all.take(k + 1).drop_last() =~= all.take(k as int));
        assert(all.take(k + 1).last() == ls@[k as int]@);
        read_copy_line(&mut tags, &ls[k], &prefix);
        k = k + 1;
    }
    assert(all.take(ls@.len() as int) =~= all);
    tags
}

// ── one entry per name ──────────────────────────────────────────────────────

proof fn lemma_some_name_at(v: Seq<EntryV>, name: Seq<char>, a: int)
    requires
        0 <= a < v.len(),
        v[a].0 == name,
    ensures
        exists|i: int| is_name_at(v, name, i),
    decreases a,
{
    if exists|j: int| 0 <= j < a && v[j].0 == name {
        let j = choose|j: int| 0 <= j < a && v[j].0 == name;
        lemma_some_name_at(v, name, j);
    } else {
        assert(is_name_at(v, name, a));
    }
}

/// Adding under a name that is there replaces it, so names stay unique.
proof fn lemma_entry_for_unique(v: Seq<EntryV>, name: Seq<char>)
    requires
        names_unique(v),
    ensures
        names_unique(entry_for(v, name).0),
        0 <= entry_for(v, name).1 < entry_for(v, name).0.len(),
        entry_for(v, name).0[entry_for(v, name).1].0 == name,
{
    match name_index(v, name) {
        Some(i) => {
            let k = choose|k: int| is_name_at(v, name, k);
            assert(is_name_at(v, name, k));
        },
        None => {
            assert forall|a: int| 0 <= a < v.len() implies v[a].0 != name by {
                if v[a].0 == name {
                    lemma_some_name_at(v, name, a);
                }
            }
            let w = v.push((name, seq![], seq![]));
            assert forall|a: int, b: int| 0 <= a < b < w.len() implies w[a].0 != w[b].0 by {
                if b == v.len() {
                    assert(w[a].0 == v[a].0);
                }
            }
        },
    }
}

proof fn lemma_ls_remote_unique(ls: Seq<Seq<char>>)
    ensures
        names_unique(ls_remote_fold(ls)),
    decreases ls.len(),
{
    if ls.len() > 0 {
        lemma_ls_remote_unique(ls.drop_last());
        let acc = ls_remote_fold(ls.drop_last());
        let line = ls.last();
        match split_once(line, seq!['\t']) {
            Some((sha, r)) => match strip_prefix(r, "refs/tags/"@) {
                Some(n0) => {
                    let name = match strip_suffix(n0, "^{}"@) {
                        Some(n) => n,
                        None => n0,
                    };
                    lemma_entry_for_unique(acc, name);
                    let (v, i) = entry_for(acc, name);
                    let out = ls_remote_step(acc, line);
                    assert forall|a: int, b: int| 0 <= a < b < out.len() implies out[a].0
                        != out[b].0 by {
                        assert(out[a].0 == v[a].0);
                        assert(out[b].0 == v[b].0);
                    }
                },
                None => {},
            },
            None => {},
        }
    }
}

proof fn lemma_upsert_unique(v: Seq<EntryV>, e: EntryV)
    requires
        names_unique(v),
    ensures
        names_unique(upsert(v, e)),
{
    lemma_entry_for_unique(v, e.0);
    let (w, i) = entry_for(v, e.0);
    let out = upsert(v, e);
    assert(out =~= w.update(i, e));
    assert forall|a: int, b: int| 0 <= a < b < out.len() implies out[a].0 != out[b].0 by {
        assert(out[a].0 == w[a].0);
        assert(out[b].0 == w[b].0);
    }
}

proof fn lemma_copy_unique(ls: Seq<Seq<char>>, prefix: Seq<char>)
    ensures
        names_unique(copy_fold(ls, prefix)),
    decreases ls.len(),
{
    if ls.len() > 0 {
        lemma_copy_unique(ls.drop_last(), prefix);
        let acc = copy_fold(ls.drop_last(), prefix);
        let f = fields(ls.last());
        if f.len() >= 2 {
            match strip_prefix(f[0], prefix) {
                Some(name) => {
                    let peeled = if f.len() >= 3 {
                        f[2]
                    } else {
                        seq![]
                    };
                    lemma_upsert_unique(acc, (name, f[1], peeled_or(f[1], peeled)));
                },
                None => {},
            }
        }
    }
}

/// Whatever a remote or git's copy lists, the answer has one entry per tag
/// name, as the map it stands for would.
pub proof fn lemma_remote_tags_one_per_name(out: Seq<char>, remote: Seq<char>)
    ensures
        names_unique(ls_remote_fold(lines(out))),
        names_unique(copy_fold(lines(out), copy_prefix(remote))),
{
    lemma_ls_remote_unique(lines(out));
    lemma_copy_unique(lines(out), copy_prefix(remote));
}

/// The line git's copy lists for a tag under `remote`: its ref, its object
/// and its peeled object.
pub open spec fn copy_line(remote: Seq<char>, name: Seq<char>, object: Seq<char>, peeled: Seq<char>) -> Seq<char> {
    copy_prefix(remote) + name + seq![crate::git::SEP] + object + seq![crate::git::SEP] + peeled
}

/// A tag git's copy lists with the object and peeled object the local
/// listing gave it reads back as the same tag: the name, the object that says
/// whether the two sides agree, and the commit its log starts from. So a tag
/// identical on both sides never reads as differing.
pub proof fn lemma_copy_agrees_with_local(
    acc: Seq<EntryV>,
    line: Seq<char>,
    t: crate::git::load::Tag,
    remote: Seq<char>,
)
    requires
        crate::git::load::tag_line_ok(line, t),
        !remote.contains(crate::git::SEP),
    ensures
        copy_step(
            acc,
            copy_line(remote, t.name@, fields(line)[3], fields(line)[4]),
            copy_prefix(remote),
        ) == upsert(acc, (t.name@, t.object@, t.commit@)),
{
    let sep = crate::git::SEP;
    let f = fields(line);
    crate::text::lemma_split_char_pieces(line, sep);
    assert(!f[0].contains(sep));
    assert(!f[3].contains(sep));
    assert(!f[4].contains(sep));
    let name = t.name@;
    let tp = "refs/tags/"@;
    assert(name == f[0].skip(tp.len() as int));
    assert(!name.contains(sep)) by {
        if name.contains(sep) {
            let m = choose|m: int| 0 <= m < name.len() && name[m] == sep;
            assert(f[0][m + tp.len()] == sep);
        }
    }
    let pre = copy_prefix(remote);
    reveal_strlit("refs/remote-tags/");
    assert(!pre.contains(sep)) by {
        if pre.contains(sep) {
            let m = choose|m: int| 0 <= m < pre.len() && pre[m] == sep;
            if m >= 17 && m < 17 + remote.len() {
                assert(remote[m - 17] == sep);
            }
        }
    }
    let head = pre + name;
    assert(!head.contains(sep)) by {
        if head.contains(sep) {
            let m = choose|m: int| 0 <= m < head.len() && head[m] == sep;
            if m < pre.len() {
                assert(pre[m] == sep);
            } else {
                assert(name[m - pre.len()] == sep);
            }
        }
    }
    let o = f[3];
    let pe = f[4];
    let rest = o + seq![sep] + pe;
    assert(copy_line(remote, name, o, pe) =~= head + seq![sep] + rest);
    crate::text::lemma_split_char_step(head, rest, sep);
    crate::text::lemma_split_char_step(o, pe, sep);
    crate::text::lemma_split_char_none(pe, sep);
    let g = fields(copy_line(remote, name, o, pe));
    assert(g =~= seq![head, o, pe]);
    assert(head.take(pre.len() as int) =~= pre);
    assert(head.skip(pre.len() as int) =~= name);
    assert(strip_prefix(head, pre) == Some(name));
}

} // verus!
