//! What the views read out of git's plainer answers: a remote URL shortened to
//! the part that names it, and one repo's working-tree state.
//!
//! `load` holds the readers behind the interactive views.




use crate::num::{decimal, lemma_decimal_reads_back, parse_unsigned, parse_usize};
pub mod load;
pub mod tags;

use crate::text::{
    concat, after_last, after_last_in, before_first, before_first_in, chars_of, contains, contains_in,
    drop_suffix, ends_with_in, lines, lines_in, non_empty, same, seqs, slice_vec, split,
    split_in, split_once, strip_prefix, words, words_in, split_once_in, starts_with, starts_with_in, string_of, string_views, trim, trim_in,
};
use vstd::prelude::*;

verus! {

/// ASCII unit separator - a field delimiter that won't appear in git's output,
/// so `--format` strings can split on it without quoting anything.
pub const SEP: char = '\u{1f}';

pub open spec fn dot_git() -> Seq<char> {
    seq!['.', 'g', 'i', 't']
}

pub open spec fn scheme_sep() -> Seq<char> {
    seq![':', '/', '/']
}

/// Backslashes read as slashes, so a Windows path splits like a POSIX one.
pub open spec fn norm_slashes(s: Seq<char>) -> Seq<char> {
    s.map_values(|c: char| if c == '\\' { '/' } else { c })
}

/// A part of a path worth naming it by: not empty, and not `.`.
pub open spec fn is_named_part(p: Seq<char>) -> bool {
    p.len() > 0 && p != seq!['.']
}

/// The components of a filesystem path that identify it.
pub open spec fn path_parts(s: Seq<char>) -> Seq<Seq<char>> {
    split(norm_slashes(s), seq!['/']).filter(|p: Seq<char>| is_named_part(p))
}

/// What is left of a URL once it is trimmed and has lost a trailing `/` and
/// then a trailing `.git`.
pub open spec fn remote_stem(url: Seq<char>) -> Seq<char> {
    drop_suffix(drop_suffix(trim(url), seq!['/']), dot_git())
}

/// A remote URL shortened to `host:owner/repo`. A real URL
/// (`scheme://[user@]host[:port]/path`) keeps its host and path; the scp-like
/// form (`[user@]host:path`, the host holding a dot) keeps the same two; a
/// filesystem path with more than two parts is named by its last two; anything
/// else comes back as it went in, less its `.git`.
pub open spec fn short_remote_of(url: Seq<char>) -> Seq<char> {
    let stripped = remote_stem(url);
    match split_once(stripped, scheme_sep()) {
        Some((_, rest)) => {
            let rest = after_last(rest, '@');
            match split_once(rest, seq!['/']) {
                Some((hostport, path)) => before_first(hostport, ':') + seq![':'] + path,
                None => stripped,
            }
        },
        None => match split_once(stripped, seq![':']) {
            Some((hostpart, path)) => if !starts_with(path, seq!['\\']) && !starts_with(
                path,
                seq!['/'],
            ) && contains(hostpart, seq!['.']) {
                after_last(hostpart, '@') + seq![':'] + path
            } else {
                local_short(stripped)
            },
            None => local_short(stripped),
        },
    }
}

/// A filesystem path named by its last two parts when it has more than two.
pub open spec fn local_short(stripped: Seq<char>) -> Seq<char> {
    let parts = path_parts(stripped);
    if parts.len() > 2 {
        seq!['…', '/'] + parts[parts.len() - 2] + seq!['/'] + parts[parts.len() - 1]
    } else {
        stripped
    }
}

/// The parts of a path worth naming it by, in order.
fn named_parts(v: Vec<Vec<char>>) -> (r: Vec<Vec<char>>)
    ensures
        seqs(r@) == seqs(v@).filter(|p: Seq<char>| is_named_part(p)),
{
    let mut r: Vec<Vec<char>> = Vec::new();
    let mut k: usize = 0;
    let ghost pred = |p: Seq<char>| is_named_part(p);
    let dot = ['.'];
    assert(dot@ =~= seq!['.']);
    assert(seqs(v@).take(0).filter(pred) =~= seqs(r@));
    while k < v.len()
        invariant
            k <= v@.len(),
            seqs(r@) == seqs(v@).take(k as int).filter(pred),
            pred == (|p: Seq<char>| is_named_part(p)),
            dot@ == seq!['.'],
        decreases v@.len() - k,
    {
        reveal_with_fuel(Seq::<_>::filter, 1);
        let ghost before = seqs(r@);
        assert(seqs(v@).take(k + 1).drop_last() =~= seqs(v@).take(k as int));
        assert(seqs(v@)[k as int] == v@[k as int]@);
        if v[k].len() > 0 && !same(&v[k], &dot) {
            let w = slice_vec(&v[k], 0, v[k].len());
            assert(w@ =~= v@[k as int]@);
            r.push(w);
            assert(seqs(r@) =~= before.push(seqs(v@)[k as int]));
        } else {
            assert(seqs(r@) =~= before);
        }
        k = k + 1;
    }
    assert(seqs(v@).take(v@.len() as int) =~= seqs(v@));
    r
}

/// Shorten a remote URL to `host:owner/repo`, the part that identifies it.
/// Handles the scp-like form git uses for SSH (`git@host:owner/repo.git`) and
/// real URLs (`https://host/owner/repo.git`, `ssh://git@host:22/owner/repo`).
/// Anything else (a filesystem path, mostly) comes back as it went in, since
/// there is no host to pull out of it.
pub fn short_remote(url: &str) -> (r: String)
    ensures
        r@ == short_remote_of(url@),
{
    let u = chars_of(url);
    let t = trim_in(&u);
    let slash = ['/'];
    assert(slash@ =~= seq!['/']);
    let t = if ends_with_in(&t, &slash) {
        slice_vec(&t, 0, t.len() - 1)
    } else {
        t
    };
    let git = ['.', 'g', 'i', 't'];
    assert(git@ =~= dot_git());
    let stripped = if ends_with_in(&t, &git) {
        slice_vec(&t, 0, t.len() - 4)
    } else {
        t
    };
    assert(stripped@ == remote_stem(url@));
    let colon = [':'];
    assert(colon@ =~= seq![':']);
    let scheme = [':', '/', '/'];
    assert(scheme@ =~= scheme_sep());
    if let Some((_, rest)) = split_once_in(&stripped, &scheme) {
        let rest = after_last_in(&rest, '@');
        let Some((hostport, path)) = split_once_in(&rest, &slash) else {
            return string_of(&stripped);
        };
        let host = before_first_in(&hostport, ':');
        let hc = concat(&host, &colon);
        return string_of(&concat(&hc, &path));
    }
    if let Some((hostpart, path)) = split_once_in(&stripped, &colon) {
        let bs = ['\\'];
        assert(bs@ =~= seq!['\\']);
        let dot = ['.'];
        assert(dot@ =~= seq!['.']);
        if !starts_with_in(&path, &bs) && !starts_with_in(&path, &slash) && contains_in(
            &hostpart,
            &dot,
        ) {
            let host = after_last_in(&hostpart, '@');
            let hc = concat(&host, &colon);
            return string_of(&concat(&hc, &path));
        }
    }
    let mut normed: Vec<char> = Vec::new();
    let mut k: usize = 0;
    while k < stripped.len()
        invariant
            k <= stripped@.len(),
            normed@ =~= norm_slashes(stripped@.take(k as int)),
        decreases stripped@.len() - k,
    {
        normed.push(
            if stripped[k] == '\\' {
                '/'
            } else {
                stripped[k]
            },
        );
        assert(stripped@.take(k + 1) =~= stripped@.take(k as int).push(stripped@[k as int]));
        k = k + 1;
    }
    assert(stripped@.take(stripped@.len() as int) =~= stripped@);
    let parts = named_parts(split_in(&normed, &slash));
    let n = parts.len();
    if n > 2 {
        let lead = ['…', '/'];
        assert(lead@ =~= seq!['…', '/']);
        assert(seqs(parts@)[n - 2] == parts@[n - 2]@);
        assert(seqs(parts@)[n - 1] == parts@[n - 1]@);
        let a = concat(&lead, &parts[n - 2]);
        let b = concat(&a, &slash);
        return string_of(&concat(&b, &parts[n - 1]));
    }
    string_of(&stripped)
}

/// One repo's working-tree state: what `slu repos` prints as a row and what the
/// repos level of the interactive drill shows.
pub struct RepoStatus {
    pub name: String,
    pub path: String,
    pub branch: String,
    pub has_upstream: bool,
    pub dirty: usize,
    pub ahead: usize,
    pub behind: usize,
    /// `origin`'s URL, shortened to `host:owner/repo`. Empty when the repo has
    /// no origin.
    pub origin: String,
}

impl crate::text::Named for RepoStatus {
    open spec fn name_of(&self) -> Seq<char> {
        self.name@
    }

    fn name(&self) -> (s: &str) {
        self.name.as_str()
    }
}

impl RepoStatus {
    /// Whether the repo needs attention: uncommitted, unpushed, or unpulled.
    pub fn needs_attention(&self) -> (b: bool)
        ensures
            b == (self.dirty > 0 || self.ahead > 0 || self.behind > 0),
    {
        self.dirty > 0 || self.ahead > 0 || self.behind > 0
    }

    /// Uncommitted work in the working tree.
    pub fn is_dirty(&self) -> (b: bool)
        ensures
            b == (self.dirty > 0),
    {
        self.dirty > 0
    }

    /// Commits that exist here and on no remote.
    pub fn is_unpushed(&self) -> (b: bool)
        ensures
            b == (self.ahead > 0),
    {
        self.ahead > 0
    }
}

/// What `git status --porcelain=2 --branch` says, read line by line: the
/// branch, whether it has an upstream, how far ahead and behind it is, and how
/// many entries are changed or untracked.
pub struct StatusRead {
    pub branch: Seq<char>,
    pub has_upstream: bool,
    pub ahead: nat,
    pub behind: nat,
    pub dirty: nat,
}

/// A number git printed, or 0 when it is not one (`parse().unwrap_or(0)`).
pub open spec fn count_or_zero(s: Seq<char>) -> nat {
    match parse_unsigned(s, usize::MAX as nat) {
        Some(n) => n,
        None => 0,
    }
}

/// One token of `# branch.ab +<ahead> -<behind>`.
pub open spec fn ab_step(ab: (nat, nat), tok: Seq<char>) -> (nat, nat) {
    match strip_prefix(tok, seq!['+']) {
        Some(a) => (count_or_zero(a), ab.1),
        None => match strip_prefix(tok, seq!['-']) {
            Some(b) => (ab.0, count_or_zero(b)),
            None => ab,
        },
    }
}

pub open spec fn ab_fold(ab: (nat, nat), toks: Seq<Seq<char>>) -> (nat, nat)
    decreases toks.len(),
{
    if toks.len() == 0 {
        ab
    } else {
        ab_step(ab_fold(ab, toks.drop_last()), toks.last())
    }
}

/// How one line of the porcelain changes what has been read so far.
pub open spec fn status_step(st: StatusRead, line: Seq<char>) -> StatusRead {
    match strip_prefix(line, "# branch.head "@) {
        Some(rest) => StatusRead { branch: rest, ..st },
        None => if starts_with(line, "# branch.upstream "@) {
            StatusRead { has_upstream: true, ..st }
        } else {
            match strip_prefix(line, "# branch.ab "@) {
                Some(rest) => {
                    let ab = ab_fold((st.ahead, st.behind), words(rest));
                    StatusRead { ahead: ab.0, behind: ab.1, ..st }
                },
                None => if !starts_with(line, seq!['#']) && line.len() > 0 {
                    StatusRead { dirty: st.dirty + 1, ..st }
                } else {
                    st
                },
            }
        },
    }
}

/// Nothing read yet: a detached head, no upstream, nothing changed.
pub open spec fn status_start() -> StatusRead {
    StatusRead { branch: "(detached)"@, has_upstream: false, ahead: 0, behind: 0, dirty: 0 }
}

pub open spec fn status_fold(ls: Seq<Seq<char>>) -> StatusRead
    decreases ls.len(),
{
    if ls.len() == 0 {
        status_start()
    } else {
        status_step(status_fold(ls.drop_last()), ls.last())
    }
}

/// `parse().unwrap_or(0)` on a count.
fn count_in(s: &[char]) -> (n: usize)
    ensures
        n as nat == count_or_zero(s@),
{
    match parse_usize(s) {
        Some(n) => n,
        None => 0,
    }
}

/// Read one repo's status from `git status --porcelain=2 --branch`, which
/// packs branch, upstream, ahead/behind, and changed files into one
/// machine-readable listing, and `origin`'s URL when it has one.
pub fn status_from(name: String, path: String, porcelain: &str, origin_url: Option<&str>) -> (r:
    RepoStatus)
    ensures
        r.name == name,
        r.path == path,
        r.branch@ == status_fold(lines(porcelain@)).branch,
        r.has_upstream == status_fold(lines(porcelain@)).has_upstream,
        r.ahead as nat == status_fold(lines(porcelain@)).ahead,
        r.behind as nat == status_fold(lines(porcelain@)).behind,
        r.dirty as nat == status_fold(lines(porcelain@)).dirty,
        r.origin@ == match origin_url {
            Some(u) => short_remote_of(u@),
            None => Seq::<char>::empty(),
        },
{
    let ls = lines_in(&chars_of(porcelain));
    let head = chars_of("# branch.head ");
    let upstream = chars_of("# branch.upstream ");
    let abp = chars_of("# branch.ab ");
    let hash = ['#'];
    assert(hash@ =~= seq!['#']);
    let plus = ['+'];
    assert(plus@ =~= seq!['+']);
    let minus = ['-'];
    assert(minus@ =~= seq!['-']);
    let mut branch = chars_of("(detached)");
    let mut has_upstream = false;
    let mut ahead: usize = 0;
    let mut behind: usize = 0;
    let mut dirty: usize = 0;
    let mut k: usize = 0;
    while k < ls.len()
        invariant
            k <= ls@.len(),
            head@ == "# branch.head "@,
            upstream@ == "# branch.upstream "@,
            abp@ == "# branch.ab "@,
            hash@ == seq!['#'],
            plus@ == seq!['+'],
            minus@ == seq!['-'],
            dirty <= k,
            ({
                let st = status_fold(seqs(ls@).take(k as int));
                &&& st.branch == branch@
                &&& st.has_upstream == has_upstream
                &&& st.ahead == ahead as nat
                &&& st.behind == behind as nat
                &&& st.dirty == dirty as nat
            }),
        decreases ls@.len() - k,
    {
        let line = &ls[k];
        assert(seqs(ls@)[k as int] == line@);
        assert(seqs(ls@).take(k + 1).drop_last() =~= seqs(ls@).take(k as int));
        if starts_with_in(line, &head) {
            branch = slice_vec(line, head.len(), line.len());
            assert(branch@ =~= line@.skip(head@.len() as int));
        } else if starts_with_in(line, &upstream) {
            has_upstream = true;
        } else if starts_with_in(line, &abp) {
            let rest = slice_vec(line, abp.len(), line.len());
            assert(rest@ =~= line@.skip(abp@.len() as int));
            let toks = words_in(&rest);
            let mut j: usize = 0;
            assert(seqs(toks@).take(0) =~= Seq::<Seq<char>>::empty());
            while j < toks.len()
                invariant
                    j <= toks@.len(),
                    plus@ == seq!['+'],
                    minus@ == seq!['-'],
                    ab_fold(
                        (status_fold(seqs(ls@).take(k as int)).ahead, status_fold(
                            seqs(ls@).take(k as int),
                        ).behind),
                        seqs(toks@).take(j as int),
                    ) == (ahead as nat, behind as nat),
                decreases toks@.len() - j,
            {
                let tok = &toks[j];
                assert(seqs(toks@)[j as int] == tok@);
                assert(seqs(toks@).take(j + 1).drop_last() =~= seqs(toks@).take(j as int));
                if starts_with_in(tok, &plus) {
                    let a = slice_vec(tok, 1, tok.len());
                    assert(a@ =~= tok@.skip(1));
                    ahead = count_in(&a);
                } else if starts_with_in(tok, &minus) {
                    let b = slice_vec(tok, 1, tok.len());
                    assert(b@ =~= tok@.skip(1));
                    behind = count_in(&b);
                }
                j = j + 1;
            }
            assert(seqs(toks@).take(toks@.len() as int) =~= seqs(toks@));
        } else if !starts_with_in(line, &hash) && line.len() > 0 {
            dirty = dirty + 1;
        }
        k = k + 1;
    }
    assert(seqs(ls@).take(ls@.len() as int) =~= seqs(ls@));
    let origin = match origin_url {
        Some(u) => short_remote(u),
        None => String::new(),
    };
    RepoStatus {
        name,
        path,
        branch: string_of(&branch),
        has_upstream,
        dirty,
        ahead,
        behind,
        origin,
    }
}

/// The lines of git's output, trimmed, blanks dropped.
pub open spec fn trimmed_lines_of(s: Seq<char>) -> Seq<Seq<char>> {
    lines(s).map_values(|l: Seq<char>| trim(l)).filter(|l: Seq<char>| l.len() > 0)
}

/// First non-empty line of git output, trimmed, for a compact one-line note.
pub open spec fn first_line_of(s: Seq<char>) -> Seq<char> {
    let ls = trimmed_lines_of(s);
    if ls.len() > 0 {
        ls[0]
    } else {
        seq![]
    }
}

fn trimmed(s: &str) -> (r: Vec<Vec<char>>)
    ensures
        seqs(r@) == trimmed_lines_of(s@),
{
    let ls = lines_in(&chars_of(s));
    let mut t: Vec<Vec<char>> = Vec::new();
    let mut k: usize = 0;
    while k < ls.len()
        invariant
            k <= ls@.len(),
            seqs(t@) =~= seqs(ls@).take(k as int).map_values(|l: Seq<char>| trim(l)),
        decreases ls@.len() - k,
    {
        let x = trim_in(&ls[k]);
        let ghost before = seqs(t@);
        t.push(x);
        assert(seqs(t@) =~= before.push(trim(seqs(ls@)[k as int])));
        assert(seqs(ls@).take(k + 1) =~= seqs(ls@).take(k as int).push(seqs(ls@)[k as int]));
        k = k + 1;
    }
    assert(seqs(ls@).take(ls@.len() as int) =~= seqs(ls@));
    non_empty(t)
}

/// The lines of git's output, trimmed, blanks dropped: the branches
/// `git branch --format=%(refname:short)` lists, say.
pub fn trimmed_lines(s: &str) -> (r: Vec<String>)
    ensures
        string_views(r@) == trimmed_lines_of(s@),
{
    let t = trimmed(s);
    let mut r: Vec<String> = Vec::new();
    let mut k: usize = 0;
    while k < t.len()
        invariant
            k <= t@.len(),
            string_views(r@) == seqs(t@).take(k as int),
        decreases t@.len() - k,
    {
        let ghost before = string_views(r@);
        r.push(string_of(&t[k]));
        assert(string_views(r@) =~= before.push(t@[k as int]@));
        assert(seqs(t@).take(k + 1) =~= seqs(t@).take(k as int).push(seqs(t@)[k as int]));
        k = k + 1;
    }
    assert(seqs(t@).take(t@.len() as int) =~= seqs(t@));
    r
}

/// First non-empty line of git output, for a compact one-line note.
pub fn first_line(s: &str) -> (r: String)
    ensures
        r@ == first_line_of(s@),
{
    let kept = trimmed(s);
    if kept.len() > 0 {
        assert(seqs(kept@)[0] == kept@[0]@);
        string_of(&kept[0])
    } else {
        String::new()
    }
}

/// A repo's name for humans: the last component of its canonical path
/// (`canonical`, when it could be had), or the path as it was given.
pub open spec fn display_name_of(canonical: Option<Seq<char>>, repo: Seq<char>) -> Seq<char> {
    match canonical {
        Some(c) => match crate::app::repos::path_file_name(c) {
            Some(n) => n,
            None => repo,
        },
        None => repo,
    }
}

pub fn display_name(canonical: Option<&str>, repo: &str) -> (r: String)
    ensures
        r@ == display_name_of(
            match canonical {
                Some(c) => Some(c@),
                None => None,
            },
            repo@,
        ),
{
    match canonical {
        Some(c) => match crate::app::repos::file_name(c) {
            Some(n) => n,
            None => string_of(&chars_of(repo)),
        },
        None => string_of(&chars_of(repo)),
    }
}

/// A line that does not start `# branch.ab ` leaves ahead and behind as they
/// were.
proof fn lemma_status_step_keeps_ab(st: StatusRead, line: Seq<char>)
    requires
        !starts_with(line, "# branch.ab "@),
    ensures
        status_step(st, line).ahead == st.ahead,
        status_step(st, line).behind == st.behind,
{
}

proof fn lemma_status_fold_keeps_ab(ls: Seq<Seq<char>>, i: int)
    requires
        0 <= i < ls.len(),
        forall|j: int| i < j < ls.len() ==> !starts_with(#[trigger] ls[j], "# branch.ab "@),
    ensures
        status_fold(ls).ahead == status_fold(ls.take(i + 1)).ahead,
        status_fold(ls).behind == status_fold(ls.take(i + 1)).behind,
    decreases ls.len(),
{
    if ls.len() == i + 1 {
        assert(ls.take(i + 1) =~= ls);
    } else {
        let d = ls.drop_last();
        assert forall|j: int| i < j < d.len() implies !starts_with(#[trigger] d[j], "# branch.ab "@) by {
            assert(d[j] == ls[j]);
        }
        lemma_status_fold_keeps_ab(d, i);
        assert(d.take(i + 1) =~= ls.take(i + 1));
        lemma_status_step_keeps_ab(status_fold(d), ls.last());
    }
}

/// A sign then the digits of a number: no whitespace in it.
proof fn lemma_signed_count_no_ws(sign: char, n: nat)
    requires
        sign == '+' || sign == '-',
        n <= usize::MAX,
    ensures
        forall|k: int| 0 <= k < (seq![sign] + decimal(n)).len() ==> !crate::text::is_ws(#[trigger] (seq![sign] + decimal(n))[k]),
{
    lemma_decimal_reads_back(n, usize::MAX as nat);
    let x = seq![sign] + decimal(n);
    assert forall|k: int| 0 <= k < x.len() implies !crate::text::is_ws(#[trigger] x[k]) by {
        if k > 0 {
            assert(x[k] == decimal(n)[k - 1]);
            assert(crate::num::is_digit(decimal(n)[k - 1]));
        }
    }
}

/// Two runs with no whitespace in them, a space between: two words.
proof fn lemma_two_words(x: Seq<char>, y: Seq<char>)
    requires
        x.len() > 0,
        y.len() > 0,
        forall|k: int| 0 <= k < x.len() ==> !crate::text::is_ws(#[trigger] x[k]),
        forall|k: int| 0 <= k < y.len() ==> !crate::text::is_ws(#[trigger] y[k]),
    ensures
        words(x + seq![' '] + y) == seq![x, y],
{
    let rest = x + seq![' '] + y;
    assert(!x.contains(' ')) by {
        if x.contains(' ') {
            let k = choose|k: int| 0 <= k < x.len() && x[k] == ' ';
            assert(!crate::text::is_ws(x[k]));
        }
    }
    assert(!y.contains(' ')) by {
        if y.contains(' ') {
            let k = choose|k: int| 0 <= k < y.len() && y[k] == ' ';
            assert(!crate::text::is_ws(y[k]));
        }
    }
    assert(crate::text::ws_to_space(rest) =~= rest) by {
        assert forall|k: int| 0 <= k < rest.len() implies (if crate::text::is_ws(rest[k]) {
            ' '
        } else {
            rest[k]
        }) == rest[k] by {
            if k < x.len() {
                assert(rest[k] == x[k]);
            } else if k > x.len() {
                assert(rest[k] == y[k - x.len() - 1]);
            }
        }
    }
    crate::text::lemma_split_char_step(x, y, ' ');
    crate::text::lemma_split_char_none(y, ' ');
    assert(split(rest, seq![' ']) =~= seq![x, y]);
    reveal_with_fuel(Seq::filter, 3);
    assert(seq![x, y].drop_last() =~= seq![x]);
    assert(seq![x].drop_last() =~= Seq::<Seq<char>>::empty());
    assert(words(rest) =~= seq![x, y]);
}

/// The counts of `+A -B` are two words, the `+` one first, and reading them
/// sets ahead to `A`, then behind to `B`.
proof fn lemma_ab_counts(ab0: (nat, nat), a: nat, b: nat)
    requires
        a <= usize::MAX,
        b <= usize::MAX,
    ensures
        ab_fold(ab0, words(seq!['+'] + decimal(a) + seq![' '] + (seq!['-'] + decimal(b)))) == (a, b),
{
    let da = decimal(a);
    let db = decimal(b);
    lemma_decimal_reads_back(a, usize::MAX as nat);
    lemma_decimal_reads_back(b, usize::MAX as nat);
    let x = seq!['+'] + da;
    let y = seq!['-'] + db;
    lemma_signed_count_no_ws('+', a);
    lemma_signed_count_no_ws('-', b);
    lemma_two_words(x, y);
    assert(x.take(1) =~= seq!['+'] && x.skip(1) =~= da);
    assert(y.take(1) =~= seq!['-'] && y.skip(1) =~= db);
    assert(strip_prefix(x, seq!['+']) == Some(da));
    assert(strip_prefix(y, seq!['+']) is None) by {
        assert(y.take(1)[0] != seq!['+'][0]);
    }
    assert(strip_prefix(y, seq!['-']) == Some(db));
    assert(seq![x, y].drop_last() =~= seq![x]);
    assert(seq![x].drop_last() =~= Seq::<Seq<char>>::empty());
    assert(ab_fold(ab0, Seq::<Seq<char>>::empty()) == ab0);
    assert(ab_fold(ab0, seq![x]) == ab_step(ab0, x));
    assert(ab_fold(ab0, seq![x, y]) == ab_step(ab_step(ab0, x), y));
}

/// A `# branch.ab +A -B` line sets ahead to `A` and behind to `B`.
proof fn lemma_ab_line(st: StatusRead, a: nat, b: nat)
    requires
        a <= usize::MAX,
        b <= usize::MAX,
    ensures
        status_step(st, "# branch.ab +"@ + decimal(a) + " -"@ + decimal(b)).ahead == a,
        status_step(st, "# branch.ab +"@ + decimal(a) + " -"@ + decimal(b)).behind == b,
{
    reveal_strlit("# branch.ab +");
    reveal_strlit(" -");
    reveal_strlit("# branch.ab ");
    reveal_strlit("# branch.head ");
    reveal_strlit("# branch.upstream ");
    let line = "# branch.ab +"@ + decimal(a) + " -"@ + decimal(b);
    let rest = seq!['+'] + decimal(a) + seq![' '] + (seq!['-'] + decimal(b));
    assert(line =~= "# branch.ab "@ + rest);
    assert(!starts_with(line, "# branch.head "@)) by {
        if starts_with(line, "# branch.head "@) {
            assert(line.take(14)[9] == "# branch.head "@[9]);
        }
    }
    assert(!starts_with(line, "# branch.upstream "@)) by {
        if starts_with(line, "# branch.upstream "@) {
            assert(line.take(18)[9] == "# branch.upstream "@[9]);
        }
    }
    assert(line.take(12) =~= "# branch.ab "@);
    assert(line.skip(12) =~= rest);
    assert(strip_prefix(line, "# branch.ab "@) == Some(rest));
    lemma_ab_counts((st.ahead, st.behind), a, b);
}

/// `# branch.ab +A -B` reads as `A` commits ahead of the upstream (to push)
/// and `B` behind it (to pull): whatever else the listing holds, when that is
/// its one `# branch.ab ` line, the status read from it is `A` ahead and `B`
/// behind.
pub proof fn lemma_branch_ab_is_ahead_then_behind(porcelain: Seq<char>, i: int, a: nat, b: nat)
    requires
        0 <= i < lines(porcelain).len(),
        lines(porcelain)[i] == "# branch.ab +"@ + decimal(a) + " -"@ + decimal(b),
        a <= usize::MAX,
        b <= usize::MAX,
        forall|j: int|
            0 <= j < lines(porcelain).len() && j != i ==> !starts_with(#[trigger] lines(porcelain)[j], "# branch.ab "@),
    ensures
        status_fold(lines(porcelain)).ahead == a,
        status_fold(lines(porcelain)).behind == b,
{
    let ls = lines(porcelain);
    lemma_ab_line(status_fold(ls.take(i)), a, b);
    assert(ls.take(i + 1).drop_last() =~= ls.take(i));
    assert(ls.take(i + 1).last() == ls[i]);
    lemma_status_fold_keeps_ab(ls, i);
}

/// A line of the listing that is an entry: a changed or untracked path, not
/// a `#` header.
pub open spec fn is_entry_line(l: Seq<char>) -> bool {
    l.len() > 0 && l[0] != '#'
}

proof fn lemma_header_lines_start_with_hash(line: Seq<char>)
    ensures
        starts_with(line, "# branch.head "@) ==> line[0] == '#',
        starts_with(line, "# branch.upstream "@) ==> line[0] == '#',
        starts_with(line, "# branch.ab "@) ==> line[0] == '#',
        starts_with(line, seq!['#']) == (line.len() > 0 && line[0] == '#'),
{
    reveal_strlit("# branch.head ");
    reveal_strlit("# branch.upstream ");
    reveal_strlit("# branch.ab ");
    if starts_with(line, "# branch.head "@) {
        assert(line.take(14)[0] == line[0]);
    }
    if starts_with(line, "# branch.upstream "@) {
        assert(line.take(18)[0] == line[0]);
    }
    if starts_with(line, "# branch.ab "@) {
        assert(line.take(12)[0] == line[0]);
    }
    if line.len() > 0 && line[0] == '#' {
        assert(line.take(1) =~= seq!['#']);
    }
    if starts_with(line, seq!['#']) {
        assert(line.take(1)[0] == line[0]);
    }
}

/// The dirty count is the number of entries in the listing: every non-empty
/// line that is not a `#` header counts once, and nothing else counts.
pub proof fn lemma_dirty_counts_entries(porcelain: Seq<char>)
    ensures
        status_fold(lines(porcelain)).dirty == lines(porcelain).filter(|l: Seq<char>| is_entry_line(l)).len(),
{
    lemma_dirty_counts_entries_of(lines(porcelain));
}

proof fn lemma_dirty_counts_entries_of(ls: Seq<Seq<char>>)
    ensures
        status_fold(ls).dirty == ls.filter(|l: Seq<char>| is_entry_line(l)).len(),
    decreases ls.len(),
{
    reveal(Seq::filter);
    if ls.len() > 0 {
        lemma_dirty_counts_entries_of(ls.drop_last());
        lemma_header_lines_start_with_hash(ls.last());
    }
}

/// The branch is what follows `# branch.head ` on the last line that has it,
/// and `(detached)` when no line does.
pub proof fn lemma_branch_is_last_head(porcelain: Seq<char>)
    ensures
        (forall|j: int| 0 <= j < lines(porcelain).len() ==> !starts_with(#[trigger] lines(porcelain)[j], "# branch.head "@))
            ==> status_fold(lines(porcelain)).branch == "(detached)"@,
        forall|i: int|
            0 <= i < lines(porcelain).len() && starts_with(#[trigger] lines(porcelain)[i], "# branch.head "@) && (forall|
                j: int,
            | i < j < lines(porcelain).len() ==> !starts_with(#[trigger] lines(porcelain)[j], "# branch.head "@))
                ==> status_fold(lines(porcelain)).branch == lines(porcelain)[i].skip(14),
{
    reveal_strlit("# branch.head ");
    lemma_branch_is_last_head_of(lines(porcelain));
}

proof fn lemma_branch_is_last_head_of(ls: Seq<Seq<char>>)
    ensures
        (forall|j: int| 0 <= j < ls.len() ==> !starts_with(#[trigger] ls[j], "# branch.head "@)) ==> status_fold(
            ls,
        ).branch == "(detached)"@,
        forall|i: int|
            0 <= i < ls.len() && starts_with(#[trigger] ls[i], "# branch.head "@) && (forall|j: int|
                i < j < ls.len() ==> !starts_with(#[trigger] ls[j], "# branch.head "@)) ==> status_fold(ls).branch
                == ls[i].skip(14),
    decreases ls.len(),
{
    reveal_strlit("# branch.head ");
    if ls.len() > 0 {
        let d = ls.drop_last();
        lemma_branch_is_last_head_of(d);
        let n = ls.len() - 1;
        if (forall|j: int| 0 <= j < ls.len() ==> !starts_with(#[trigger] ls[j], "# branch.head "@)) {
            assert forall|j: int| 0 <= j < d.len() implies !starts_with(#[trigger] d[j], "# branch.head "@) by {
                assert(d[j] == ls[j]);
            }
            assert(!starts_with(ls[n], "# branch.head "@));
        }
        assert forall|i: int|
            0 <= i < ls.len() && starts_with(#[trigger] ls[i], "# branch.head "@) && (forall|j: int|
                i < j < ls.len() ==> !starts_with(#[trigger] ls[j], "# branch.head "@)) implies status_fold(ls).branch
            == ls[i].skip(14) by {
            if i < n {
                assert(!starts_with(ls[n], "# branch.head "@));
                assert(d[i] == ls[i]);
                assert forall|j: int| i < j < d.len() implies !starts_with(#[trigger] d[j], "# branch.head "@) by {
                    assert(d[j] == ls[j]);
                }
            }
        }
    }
}

/// The repo has an upstream exactly when some line starts
/// `# branch.upstream `.
pub proof fn lemma_upstream_when_listed(porcelain: Seq<char>)
    ensures
        status_fold(lines(porcelain)).has_upstream == exists|j: int|
            0 <= j < lines(porcelain).len() && starts_with(#[trigger] lines(porcelain)[j], "# branch.upstream "@),
{
    lemma_upstream_when_listed_of(lines(porcelain));
}

proof fn lemma_upstream_when_listed_of(ls: Seq<Seq<char>>)
    ensures
        status_fold(ls).has_upstream == exists|j: int| 0 <= j < ls.len() && starts_with(#[trigger] ls[j], "# branch.upstream "@),
    decreases ls.len(),
{
    reveal_strlit("# branch.head ");
    reveal_strlit("# branch.upstream ");
    if ls.len() > 0 {
        let d = ls.drop_last();
        lemma_upstream_when_listed_of(d);
        let l = ls.last();
        assert(!(starts_with(l, "# branch.head "@) && starts_with(l, "# branch.upstream "@))) by {
            if starts_with(l, "# branch.head "@) && starts_with(l, "# branch.upstream "@) {
                assert(l.take(14)[9] == l.take(18)[9]);
            }
        }
        if exists|j: int| 0 <= j < d.len() && starts_with(#[trigger] d[j], "# branch.upstream "@) {
            let j = choose|j: int| 0 <= j < d.len() && starts_with(#[trigger] d[j], "# branch.upstream "@);
            assert(ls[j] == d[j]);
        }
        if exists|j: int| 0 <= j < ls.len() && starts_with(#[trigger] ls[j], "# branch.upstream "@) {
            let j = choose|j: int| 0 <= j < ls.len() && starts_with(#[trigger] ls[j], "# branch.upstream "@);
            if j < d.len() {
                assert(d[j] == ls[j]);
            }
        }
    }
}

} // verus!
