//! The commits level: a branch's (or the log's) commits, which of them the
//! push-state tabs keep, and what a filter can match on a commit or a file.

use crate::git::load::{is_unpushed, Commit, FileEntry};
use crate::text::string_views;
use crate::text::{chars_of, concat, string_of};
use vstd::prelude::*;

verus! {

/// Push-state filter over the loaded commits.
#[derive(Clone, Copy, PartialEq, Eq, Debug, Structural)]
pub enum Scope {
    /// Only commits that are on no remote yet.
    Local,
    All,
    /// Only commits that are on some remote.
    Pushed,
}

/// How many stops the slider has.
pub const SCOPE_COUNT: usize = 3;

pub const DEFAULT_SCOPE: usize = 1;

/// Left→right order for the `h`/`l` slider; `All` in the middle.
pub open spec fn scope_at(i: usize) -> Scope {
    if i == 0 {
        Scope::Local
    } else if i == 1 {
        Scope::All
    } else {
        Scope::Pushed
    }
}

/// Whether a tab keeps a commit, given the hashes no remote has.
pub open spec fn keeps_commit(s: Scope, unpushed: Seq<Seq<char>>, hash: Seq<char>) -> bool {
    match s {
        Scope::All => true,
        Scope::Local => unpushed.contains(hash),
        Scope::Pushed => !unpushed.contains(hash),
    }
}

impl Scope {
    /// The stop at `i` on the slider.
    pub fn at(i: usize) -> (s: Scope)
        requires
            i < SCOPE_COUNT,
        ensures
            s == scope_at(i),
    {
        if i == 0 {
            Scope::Local
        } else if i == 1 {
            Scope::All
        } else {
            Scope::Pushed
        }
    }

    pub fn label(self) -> (s: &'static str)
        ensures
            s@ == match self {
                Scope::Local => "local"@,
                Scope::All => "all"@,
                Scope::Pushed => "pushed"@,
            },
    {
        match self {
            Scope::Local => "local",
            Scope::All => "all",
            Scope::Pushed => "pushed",
        }
    }

    pub fn keeps(self, unpushed: &Vec<String>, c: &Commit) -> (k: bool)
        ensures
            k == keeps_commit(self, string_views(unpushed@), c.hash@),
    {
        match self {
            Scope::All => true,
            Scope::Local => is_unpushed(unpushed, c.hash.as_str()),
            Scope::Pushed => !is_unpushed(unpushed, c.hash.as_str()),
        }
    }
}

/// The commits from `from` on that a tab keeps, by index, in order: what a
/// batch arriving in the background adds to the pane, and with `from` zero,
/// the whole pane.
pub open spec fn kept_commits(
    hashes: Seq<Seq<char>>,
    from: int,
    n: int,
    s: Scope,
    unpushed: Seq<Seq<char>>,
) -> Seq<usize>
    decreases n - from,
{
    if n <= from {
        seq![]
    } else {
        let rest = kept_commits(hashes, from, n - 1, s, unpushed);
        if keeps_commit(s, unpushed, hashes[n - 1]) {
            rest.push((n - 1) as usize)
        } else {
            rest
        }
    }
}

pub open spec fn commit_hashes(v: Seq<Commit>) -> Seq<Seq<char>> {
    v.map_values(|c: Commit| c.hash@)
}

pub fn visible_commits(commits: &[Commit], from: usize, s: Scope, unpushed: &Vec<String>) -> (r:
    Vec<usize>)
    ensures
        r@ == kept_commits(
            commit_hashes(commits@),
            from as int,
            commits@.len() as int,
            s,
            string_views(unpushed@),
        ),
{
    let ghost hs = commit_hashes(commits@);
    let mut r: Vec<usize> = Vec::new();
    let mut k: usize = from;
    if from >= commits.len() {
        return r;
    }
    while k < commits.len()
        invariant
            from <= k <= commits@.len(),
            hs == commit_hashes(commits@),
            r@ == kept_commits(hs, from as int, k as int, s, string_views(unpushed@)),
        decreases commits@.len() - k,
    {
        assert(hs[k as int] == commits@[k as int].hash@);
        if s.keeps(unpushed, &commits[k]) {
            r.push(k);
        }
        k = k + 1;
    }
    r
}

/// Everything about a commit a filter can match: its sha (so a short one is
/// a prefix of the long one), when it landed, who made it and what it says.
pub fn haystack(c: &Commit) -> (s: String)
    ensures
        s@ == c.hash@ + seq![' '] + c.date@ + seq![' '] + c.committer@ + seq![' '] + c.subject@,
{
    let sp = [' '];
    assert(sp@ =~= seq![' ']);
    let mut v = concat(&chars_of(c.hash.as_str()), &sp);
    v = concat(&v, &chars_of(c.date.as_str()));
    v = concat(&v, &sp);
    v = concat(&v, &chars_of(c.committer.as_str()));
    v = concat(&v, &sp);
    v = concat(&v, &chars_of(c.subject.as_str()));
    string_of(&v)
}

/// A changed file matches on its path and on its status letter.
pub fn file_haystack(f: &FileEntry) -> (s: String)
    ensures
        s@ == seq![f.status, ' '] + f.path@,
{
    let head = [f.status, ' '];
    assert(head@ =~= seq![f.status, ' ']);
    string_of(&concat(&head, &chars_of(f.path.as_str())))
}

impl crate::app::rows::Listed for Commit {
    type Scope = Scope;

    open spec fn key_of(&self) -> Seq<char> {
        self.hash@
    }

    fn key(&self) -> (s: &str) {
        self.hash.as_str()
    }

    open spec fn hay_of(&self) -> Seq<char> {
        self.hash@ + seq![' '] + self.date@ + seq![' '] + self.committer@ + seq![' '] + self.subject@
    }

    fn hay(&self) -> (s: String) {
        haystack(self)
    }

    open spec fn in_scope(&self, s: Scope, unpushed: Seq<Seq<char>>) -> bool {
        keeps_commit(s, unpushed, self.hash@)
    }

    fn keeps_in(&self, s: Scope, unpushed: &Vec<String>) -> (b: bool) {
        s.keeps(unpushed, self)
    }
}

/// A changed file has no scope slider: every tab keeps it.
impl crate::app::rows::Listed for FileEntry {
    type Scope = crate::app::rows::AllRows;

    open spec fn key_of(&self) -> Seq<char> {
        self.path@
    }

    fn key(&self) -> (s: &str) {
        self.path.as_str()
    }

    open spec fn hay_of(&self) -> Seq<char> {
        seq![self.status, ' '] + self.path@
    }

    fn hay(&self) -> (s: String) {
        file_haystack(self)
    }

    open spec fn in_scope(&self, s: crate::app::rows::AllRows, unpushed: Seq<Seq<char>>) -> bool {
        true
    }

    fn keeps_in(&self, s: crate::app::rows::AllRows, unpushed: &Vec<String>) -> (b: bool) {
        true
    }
}

/// The local tab holds exactly the commits no remote has and the pushed tab
/// exactly the others: a commit whose hash is among the unpushed hashes is
/// kept by Local and not by Pushed, any other by Pushed and not by Local, and
/// All keeps every commit. So each commit is on exactly one of the two tabs.
pub proof fn lemma_local_and_pushed_split_commits(unpushed: Seq<Seq<char>>, hash: Seq<char>)
    ensures
        (exists|k: int| 0 <= k < unpushed.len() && unpushed[k] == hash) ==> keeps_commit(
            Scope::Local,
            unpushed,
            hash,
        ) && !keeps_commit(Scope::Pushed, unpushed, hash),
        (forall|k: int| 0 <= k < unpushed.len() ==> unpushed[k] != hash) ==> keeps_commit(
            Scope::Pushed,
            unpushed,
            hash,
        ) && !keeps_commit(Scope::Local, unpushed, hash),
        keeps_commit(Scope::All, unpushed, hash),
        keeps_commit(Scope::Local, unpushed, hash) != keeps_commit(Scope::Pushed, unpushed, hash),
{
}

} // verus!
