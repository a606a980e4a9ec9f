//! The repos level: every repo under a path, how each is named there, which
//! of them the slider's tabs keep, and what syncing them all came to.

use crate::git::{first_line, first_line_of, RepoStatus};
use crate::num::{decimal, decimal_of};
use crate::text::{chars_of, concat, join, join_in, seqs, string_of};
use vstd::prelude::*;

verus! {

/// Which slice of the repos the top pane shows.
#[derive(Clone, Copy, PartialEq, Eq, Debug, Structural)]
pub enum Scope {
    Dirty,
    All,
    Unpushed,
}

/// How many stops the slider has.
pub const SCOPE_COUNT: usize = 3;

pub const DEFAULT_SCOPE: usize = 0;

/// Tab order: the default first, as in every view, then local towards remote.
pub open spec fn scope_at(i: usize) -> Scope {
    if i == 0 {
        Scope::All
    } else if i == 1 {
        Scope::Dirty
    } else {
        Scope::Unpushed
    }
}

impl Scope {
    /// The stop at `i` on the slider.
    pub fn at(i: usize) -> (s: Scope)
        requires
            i < SCOPE_COUNT,
        ensures
            s == scope_at(i),
    {
        if i == 0 {
            Scope::All
        } else if i == 1 {
            Scope::Dirty
        } else {
            Scope::Unpushed
        }
    }

    pub fn label(self) -> (s: &'static str)
        ensures
            s@ == match self {
                Scope::Dirty => "dirty"@,
                Scope::All => "all"@,
                Scope::Unpushed => "unpushed"@,
            },
    {
        match self {
            Scope::Dirty => "dirty",
            Scope::All => "all",
            Scope::Unpushed => "unpushed",
        }
    }

    pub fn keeps(self, r: &RepoStatus) -> (k: bool)
        ensures
            k == match self {
                Scope::Dirty => r.dirty > 0,
                Scope::All => true,
                Scope::Unpushed => r.ahead > 0,
            },
    {
        match self {
            Scope::Dirty => r.is_dirty(),
            Scope::All => true,
            Scope::Unpushed => r.is_unpushed(),
        }
    }
}

/// `Path::strip_prefix` followed by `to_string_lossy`: what is left of `path`
/// once the components of `base` are taken off its front, or none when `base`
/// is not a prefix of it component by component. A function of the two paths'
/// text alone.
pub uninterp spec fn path_strip_prefix(path: Seq<char>, base: Seq<char>) -> Option<Seq<char>>;

/// `Path::strip_prefix`. What it answers is the named `path_strip_prefix` of
/// the two paths; how components are compared is std's and is not restated.
#[verifier::external_body]
fn strip_path_prefix(path: &str, base: &str) -> (r: Option<String>)
    ensures
        match r {
            Some(s) => path_strip_prefix(path@, base@) == Some(s@),
            None => path_strip_prefix(path@, base@) is None,
        },
{
    std::path::Path::new(path).strip_prefix(base).ok().map(|p| p.to_string_lossy().into_owned())
}

/// `Path::file_name` followed by `to_string_lossy`: the final component of
/// `path` when it is a normal one, none when the path ends in `..` or is a
/// root. A function of the path's text alone.
pub uninterp spec fn path_file_name(path: Seq<char>) -> Option<Seq<char>>;

/// `Path::file_name`. What it answers is the named `path_file_name` of the
/// path; nothing more of how std splits components is claimed.
#[verifier::external_body]
pub(crate) fn file_name(path: &str) -> (r: Option<String>)
    ensures
        match r {
            Some(s) => path_file_name(path@) == Some(s@),
            None => path_file_name(path@) is None,
        },
{
    std::path::Path::new(path).file_name().map(|n| n.to_string_lossy().into_owned())
}

/// Every `\` read as `/`.
pub open spec fn forward_slashes(s: Seq<char>) -> Seq<char> {
    s.map_values(|c: char| if c == '\\' { '/' } else { c })
}

/// A repo's name from what is left of its path below the scan root
/// (`stripped`, none when it is not below it) and its final component
/// (`file`): the rest with `/` separators when there is any, else the final
/// component, else the path itself.
pub open spec fn relative_from(stripped: Option<Seq<char>>, file: Option<Seq<char>>, repo: Seq<char>) -> Seq<char> {
    match stripped {
        Some(rest) if rest.len() > 0 => forward_slashes(rest),
        _ => match file {
            Some(n) => n,
            None => repo,
        },
    }
}

/// A repo's path relative to the directory being scanned (`crates/vibox`), or
/// its plain name when it sits directly under it.
pub open spec fn relative_name_of(repo: Seq<char>, base: Seq<char>) -> Seq<char> {
    relative_from(path_strip_prefix(repo, base), path_file_name(repo), repo)
}

pub open spec fn opt_view(o: Option<&str>) -> Option<Seq<char>> {
    match o {
        Some(s) => Some(s@),
        None => None,
    }
}

/// A repo's name from what `Path::strip_prefix` left of its path below the
/// scan root (`stripped`) and what `Path::file_name` gave (`file`).
pub fn relative_name_from(stripped: Option<&str>, file: Option<&str>, repo: &str) -> (r: String)
    ensures
        r@ == relative_from(opt_view(stripped), opt_view(file), repo@),
{
    if let Some(rest) = stripped {
        if !rest.is_empty() {
            let cs = chars_of(rest);
            let mut v: Vec<char> = Vec::new();
            let mut k: usize = 0;
            while k < cs.len()
                invariant
                    k <= cs@.len(),
                    v@ == forward_slashes(cs@.take(k as int)),
                decreases cs@.len() - k,
            {
                let c = if cs[k] == '\\' {
                    '/'
                } else {
                    cs[k]
                };
                v.push(c);
                assert(cs@.take(k + 1) =~= cs@.take(k as int).push(cs@[k as int]));
                assert(v@ =~= forward_slashes(cs@.take(k + 1)));
                k = k + 1;
            }
            assert(cs@.take(cs@.len() as int) =~= cs@);
            return string_of(&v);
        }
    }
    match file {
        Some(n) => string_of(&chars_of(n)),
        None => string_of(&chars_of(repo)),
    }
}

/// A repo's path relative to the directory being scanned (`crates/vibox`), or
/// its plain name when it sits directly under it. The repo a scan started
/// inside of sits above the scan root: it gets its directory name rather than
/// a full path.
pub fn relative_name(repo: &str, base: &str) -> (r: String)
    ensures
        r@ == relative_name_of(repo@, base@),
{
    let stripped = strip_path_prefix(repo, base);
    let file = file_name(repo);
    let s = match &stripped {
        Some(x) => Some(x.as_str()),
        None => None,
    };
    let f = match &file {
        Some(x) => Some(x.as_str()),
        None => None,
    };
    relative_name_from(s, f, repo)
}

/// Everything about a repo a `/` filter can match: what it is called, what it
/// is on, and where it came from.
pub open spec fn haystack_of(r: RepoStatus) -> Seq<char> {
    r.name@ + seq![' '] + r.branch@ + seq![' '] + r.origin@
}

pub fn haystack(r: &RepoStatus) -> (s: String)
    ensures
        s@ == haystack_of(*r),
{
    let sp = [' '];
    assert(sp@ =~= seq![' ']);
    let a = concat(&chars_of(r.name.as_str()), &sp);
    let b = concat(&a, &chars_of(r.branch.as_str()));
    let c = concat(&b, &sp);
    string_of(&concat(&c, &chars_of(r.origin.as_str())))
}

/// What syncing every repo on screen came to.
pub enum SyncReport {
    /// All of them synced: the line for the footer.
    Synced(String),
    /// Some did not: a box titled `title` listing each failure.
    Failed { title: String, body: String },
}

/// `""` or `"s"`, for `n` of something.
pub open spec fn plural(n: int) -> Seq<char> {
    if n == 1 {
        seq![]
    } else {
        seq!['s']
    }
}

/// One repo's sync as the report sees it: its name, and how many commits it
/// pulled or the error git gave.
pub open spec fn outcome_views(v: Seq<(String, Result<usize, String>)>) -> Seq<
    (Seq<char>, Result<nat, Seq<char>>),
> {
    v.map_values(
        |o: (String, Result<usize, String>)|
            (
                o.0@,
                match o.1 {
                    Ok(n) => Ok(n as nat),
                    Err(e) => Err(e@),
                },
            ),
    )
}

/// The failures, one line each: `name: first line of what git said`.
pub open spec fn failure_lines(v: Seq<(Seq<char>, Result<nat, Seq<char>>)>) -> Seq<Seq<char>>
    decreases v.len(),
{
    if v.len() == 0 {
        seq![]
    } else {
        let rest = failure_lines(v.drop_last());
        match v.last().1 {
            Err(e) => rest.push(v.last().0 + ": "@ + first_line_of(e)),
            Ok(_) => rest,
        }
    }
}

/// Commits pulled in all, and into how many repos.
pub open spec fn pulled(v: Seq<(Seq<char>, Result<nat, Seq<char>>)>) -> (nat, nat)
    decreases v.len(),
{
    if v.len() == 0 {
        (0, 0)
    } else {
        let (sum, into) = pulled(v.drop_last());
        match v.last().1 {
            Ok(n) => (sum + n, if n > 0 {
                into + 1
            } else {
                into
            }),
            Err(_) => (sum, into),
        }
    }
}

/// The footer line for a sync of which `synced` repos worked: the count, and
/// with `pull` what was pulled into how many of them.
pub open spec fn synced_text(synced: nat, pull: bool, sum: nat, into: nat) -> Seq<char> {
    "synced "@ + decimal(synced) + " repo"@ + plural(synced as int) + if pull && sum > 0 {
        "; pulled "@ + decimal(sum) + " commit"@ + plural(sum as int) + " into "@ + decimal(
            into,
        ) + " repo"@ + plural(into as int)
    } else {
        seq![]
    }
}

/// What `s`/`S` on the repos level reports, from each repo's outcome: a line
/// when every one synced, else a box naming each that did not.
pub open spec fn sync_report_of(v: Seq<(Seq<char>, Result<nat, Seq<char>>)>, pull: bool) -> (
    bool,
    Seq<char>,
    Seq<char>,
) {
    let failed = failure_lines(v);
    let (sum, into) = pulled(v);
    if failed.len() == 0 {
        (true, synced_text((v.len() - failed.len()) as nat, pull, sum, into), seq![])
    } else {
        (
            false,
            decimal(failed.len()) + " of "@ + decimal(v.len()) + " repos did not sync"@,
            join(failed, seq!['\n']),
        )
    }
}

proof fn lemma_report_bounds(v: Seq<(Seq<char>, Result<nat, Seq<char>>)>)
    ensures
        failure_lines(v).len() <= v.len(),
        pulled(v).1 <= v.len(),
    decreases v.len(),
{
    if v.len() > 0 {
        lemma_report_bounds(v.drop_last());
    }
}

fn plural_of(n: usize) -> (v: Vec<char>)
    ensures
        v@ == plural(n as int),
{
    if n == 1 {
        Vec::new()
    } else {
        let mut v = Vec::new();
        v.push('s');
        v
    }
}

/// Each failure's line, and the commits pulled and into how many repos.
fn tally(outcomes: &[(String, Result<usize, String>)]) -> (r: (Vec<Vec<char>>, usize, usize))
    requires
        pulled(outcome_views(outcomes@)).0 <= usize::MAX,
    ensures
        seqs(r.0@) == failure_lines(outcome_views(outcomes@)),
        (r.1 as nat, r.2 as nat) == pulled(outcome_views(outcomes@)),
{
    let ghost ov = outcome_views(outcomes@);
    let mut failed: Vec<Vec<char>> = Vec::new();
    let mut sum: usize = 0;
    let mut into: usize = 0;
    let mut k: usize = 0;
    proof {
        reveal_strlit(": ");
    }
    while k < outcomes.len()
        invariant
            k <= outcomes@.len(),
            ov == outcome_views(outcomes@),
            pulled(ov).0 <= usize::MAX,
            seqs(failed@) == failure_lines(ov.take(k as int)),
            (sum as nat, into as nat) == pulled(ov.take(k as int)),
            into <= k,
        decreases outcomes@.len() - k,
    {
        assert(ov.take(k + 1).drop_last() =~= ov.take(k as int));
        assert(ov.take(k + 1).last() == ov[k as int]);
        proof {
            lemma_pulled_grows(ov, k + 1);
        }
        match &outcomes[k].1 {
            Ok(n) => {
                sum = sum + *n;
                if *n > 0 {
                    into = into + 1;
                }
            },
            Err(e) => {
                let a = concat(&chars_of(outcomes[k].0.as_str()), &chars_of(": "));
                let line = concat(&a, &chars_of(first_line(e.as_str()).as_str()));
                let ghost before = seqs(failed@);
                failed.push(line);
                assert(seqs(failed@) =~= before.push(line@));
            },
        }
        k = k + 1;
    }
    assert(ov.take(outcomes@.len() as int) =~= ov);
    (failed, sum, into)
}

fn synced_line(synced: usize, pull: bool, sum: usize, into: usize) -> (t: Vec<char>)
    ensures
        t@ == synced_text(synced as nat, pull, sum as nat, into as nat),
{
    let mut t = concat(&chars_of("synced "), &decimal_of(synced as u64));
    t = concat(&t, &chars_of(" repo"));
    t = concat(&t, &plural_of(synced));
    if pull && sum > 0 {
        let mut p = concat(&chars_of("; pulled "), &decimal_of(sum as u64));
        p = concat(&p, &chars_of(" commit"));
        p = concat(&p, &plural_of(sum));
        p = concat(&p, &chars_of(" into "));
        p = concat(&p, &decimal_of(into as u64));
        p = concat(&p, &chars_of(" repo"));
        p = concat(&p, &plural_of(into));
        t = concat(&t, &p);
    } else {
        assert(t@ =~= t@ + Seq::<char>::empty());
    }
    t
}

/// What syncing every repo the list shows came to: each repo's name with how
/// many commits it pulled, or git's error for it.
pub fn sync_report(outcomes: &[(String, Result<usize, String>)], pull: bool) -> (r: SyncReport)
    requires
        pulled(outcome_views(outcomes@)).0 <= usize::MAX,
    ensures
        ({
            let (ok, a, b) = sync_report_of(outcome_views(outcomes@), pull);
            match r {
                SyncReport::Synced(text) => ok && text@ == a,
                SyncReport::Failed { title, body } => !ok && title@ == a && body@ == b,
            }
        }),
{
    let (failed, sum, into) = tally(outcomes);
    proof {
        lemma_report_bounds(outcome_views(outcomes@));
    }
    let n = outcomes.len();
    if failed.len() == 0 {
        SyncReport::Synced(string_of(&synced_line(n, pull, sum, into)))
    } else {
        let mut title = concat(&decimal_of(failed.len() as u64), &chars_of(" of "));
        title = concat(&title, &decimal_of(n as u64));
        title = concat(&title, &chars_of(" repos did not sync"));
        let nl = ['\n'];
        assert(nl@ =~= seq!['\n']);
        let body = join_in(&failed, &nl);
        SyncReport::Failed { title: string_of(&title), body: string_of(&body) }
    }
}

proof fn lemma_pulled_grows(v: Seq<(Seq<char>, Result<nat, Seq<char>>)>, k: int)
    requires
        0 <= k <= v.len(),
    ensures
        pulled(v.take(k)).0 <= pulled(v).0,
    decreases v.len() - k,
{
    if k < v.len() {
        lemma_pulled_grows(v, k + 1);
        assert(v.take(k + 1).drop_last() =~= v.take(k));
    } else {
        assert(v.take(k) =~= v);
    }
}

impl crate::app::rows::Listed for RepoStatus {
    type Scope = Scope;

    open spec fn key_of(&self) -> Seq<char> {
        self.path@
    }

    fn key(&self) -> (s: &str) {
        self.path.as_str()
    }

    open spec fn hay_of(&self) -> Seq<char> {
        haystack_of(*self)
    }

    fn hay(&self) -> (s: String) {
        haystack(self)
    }

    open spec fn in_scope(&self, s: Scope, unpushed: Seq<Seq<char>>) -> bool {
        match s {
            Scope::Dirty => self.dirty > 0,
            Scope::All => true,
            Scope::Unpushed => self.ahead > 0,
        }
    }

    fn keeps_in(&self, s: Scope, unpushed: &Vec<String>) -> (b: bool) {
        s.keeps(self)
    }
}

} // verus!
