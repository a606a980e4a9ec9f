//! Readers behind the interactive views: git's `--format` output back into
//! commits, branches, tags, the refs a commit carries, and which of them fit on
//! a row.
//!
//! Every reader takes the text git printed; running git is the caller's part.

use crate::git::SEP;
use crate::num::{decimal, decimal_of, digits, num_digits};
use crate::text::{
    concat, strip_prefix_in, string_views, chars_of, lines, lines_in, strip_suffix, split_once, split_once_in, trim, trim_in, words, words_in, ends_with, ends_with_in, same, seqs, slice_vec, split, split_in, starts_with_in,
    string_of, strip_prefix,
};
use vstd::prelude::*;

verus! {

/// A ref pointing at a commit, named the way `git log --decorate` names it.
pub struct RefLabel {
    pub kind: RefKind,
    pub name: String,
}

#[derive(Clone, Copy, PartialEq, Eq, Debug, Structural)]
pub enum RefKind {
    /// The checked-out branch.
    Head,
    /// `HEAD` itself, when it names no branch.
    Detached,
    Branch,
    Remote,
    Tag,
}

/// What git prints for a ref of `kind` called `name`.
pub open spec fn label_text(kind: RefKind, name: Seq<char>) -> Seq<char> {
    match kind {
        RefKind::Head => "HEAD -> "@ + name,
        RefKind::Detached => "HEAD"@,
        RefKind::Branch | RefKind::Remote => name,
        RefKind::Tag => "tag: "@ + name,
    }
}

/// The kind and name of each label.
pub open spec fn label_views(v: Seq<RefLabel>) -> Seq<(RefKind, Seq<char>)> {
    v.map_values(|r: RefLabel| (r.kind, r.name@))
}

impl RefLabel {
    /// What git prints for it: `HEAD -> main`, `origin/main`, `tag: v1`.
    pub fn text(&self) -> (t: String)
        ensures
            t@ == label_text(self.kind, self.name@),
    {
        let name = chars_of(self.name.as_str());
        match self.kind {
            RefKind::Head => string_of(&concat(&chars_of("HEAD -> "), &name)),
            RefKind::Detached => string_of(&chars_of("HEAD")),
            RefKind::Branch | RefKind::Remote => string_of(&name),
            RefKind::Tag => string_of(&concat(&chars_of("tag: "), &name)),
        }
    }

    fn text_chars(&self) -> (t: Vec<char>)
        ensures
            t@ == label_text(self.kind, self.name@),
    {
        let name = chars_of(self.name.as_str());
        match self.kind {
            RefKind::Head => concat(&chars_of("HEAD -> "), &name),
            RefKind::Detached => chars_of("HEAD"),
            RefKind::Branch | RefKind::Remote => name,
            RefKind::Tag => concat(&chars_of("tag: "), &name),
        }
    }
}

// ── fitting labels on a row ─────────────────────────────────────────────────

/// Columns `, +N` costs when `left` labels are left off: nothing when none are.
pub open spec fn more_cols(left: nat) -> nat {
    if left == 0 {
        0
    } else {
        3 + num_digits(left)
    }
}

/// The texts of the labels.
pub open spec fn ref_texts(refs: Seq<RefLabel>) -> Seq<Seq<char>> {
    refs.map_values(|r: RefLabel| label_text(r.kind, r.name@))
}

/// Total length of the first `j` texts.
pub open spec fn sum_lens(ts: Seq<Seq<char>>, j: int) -> nat
    decreases j,
{
    if j <= 0 {
        0
    } else {
        sum_lens(ts, j - 1) + ts[j - 1].len()
    }
}

/// Columns `(a, b) ` takes with the first `j` texts: the parentheses and the
/// trailing space, the texts, and a `, ` between each two.
pub open spec fn prefix_cols(ts: Seq<Seq<char>>, j: int) -> nat {
    if j <= 0 {
        3
    } else {
        (3 + sum_lens(ts, j) + 2 * (j - 1)) as nat
    }
}

/// The first `j` whole labels fit in `room` along with the `+N` for the rest.
pub open spec fn fits(ts: Seq<Seq<char>>, j: int, room: nat) -> bool {
    prefix_cols(ts, j) + more_cols((ts.len() - j) as nat) <= room
}

/// The first label cut to fit: as many of its characters as leave room for
/// the `…`, the `+N` and the parentheses, but always at least one.
pub open spec fn cut_first(t: Seq<char>, room: nat, n: nat) -> Seq<char> {
    let avail = room - 3 - more_cols((n - 1) as nat);
    let fit: int = if avail >= 2 {
        avail
    } else {
        2
    };
    let keep = if fit - 1 <= t.len() {
        fit - 1
    } else {
        t.len() as int
    };
    t.take(keep) + seq!['…']
}

/// `fit_refs`' answer: whole labels in git's order for as long as each one
/// still leaves room for the `+N`, then the number left off; or, when even the
/// first does not fit whole, the first alone, cut short.
pub open spec fn fit_refs_ok(
    refs: Seq<RefLabel>,
    room: nat,
    kept: Seq<(RefKind, Seq<char>)>,
    hidden: nat,
) -> bool {
    let ts = ref_texts(refs);
    let n = refs.len();
    &&& kept.len() + hidden == n
    &&& if n == 0 {
        kept.len() == 0
    } else if !fits(ts, 1, room) {
        kept.len() == 1 && kept[0] == (refs[0].kind, cut_first(ts[0], room, n))
    } else {
        &&& kept.len() >= 1
        &&& forall|j: int| 1 <= j <= kept.len() ==> #[trigger] fits(ts, j, room)
        &&& (kept.len() == n || !fits(ts, kept.len() + 1int, room))
        &&& forall|j: int| 0 <= j < kept.len() ==> #[trigger] kept[j] == (refs[j].kind, ts[j])
    }
}

/// The labels as returned: kind and text.
pub open spec fn kept_views(v: Seq<(RefKind, String)>) -> Seq<(RefKind, Seq<char>)> {
    v.map_values(|p: (RefKind, String)| (p.0, p.1@))
}

fn more_of(left: usize) -> (m: usize)
    ensures
        m == more_cols(left as nat),
        m <= 23,
{
    if left == 0 {
        0
    } else {
        let d = digits(left);
        proof {
            lemma_digits_small(left as nat);
        }
        3 + d
    }
}

proof fn lemma_digits_small(n: nat)
    requires
        n <= u64::MAX,
    ensures
        num_digits(n) <= 20,
{
    lemma_pow10_20();
    lemma_num_digits_bound(n, 20);
}

proof fn lemma_num_digits_bound(n: nat, k: nat)
    requires
        n < pow10(k),
        k >= 1,
    ensures
        num_digits(n) <= k,
    decreases k,
{
    if n >= 10 {
        assert(n / 10 < pow10((k - 1) as nat)) by {
            if k == 1 {
                assert(pow10(1) == 10 * pow10(0));
            }
            assert(pow10(k) == 10 * pow10((k - 1) as nat));
        }
        if k >= 2 {
            lemma_num_digits_bound(n / 10, (k - 1) as nat);
        } else {
            assert(pow10(1) == 10 * pow10(0));
        }
    }
}

pub open spec fn pow10(k: nat) -> nat
    decreases k,
{
    if k == 0 {
        1
    } else {
        10 * pow10((k - 1) as nat)
    }
}

proof fn lemma_pow10_20()
    ensures
        pow10(20) == 100000000000000000000nat,
{
    reveal_with_fuel(pow10, 21);
}

proof fn lemma_sum_lens_step(ts: Seq<Seq<char>>, j: int)
    requires
        0 <= j,
    ensures
        sum_lens(ts, j + 1) == sum_lens(ts, j) + ts[j].len(),
{
}

/// The labels that fit in `room` columns once drawn as `(a, b, +2) `: whole
/// labels in git's order, then how many were left off. The first is always
/// kept, cut short with `…` when it alone is too wide, so a commit never looks
/// like it has no refs.
pub fn fit_refs(refs: &[RefLabel], room: usize) -> (r: (Vec<(RefKind, String)>, usize))
    ensures
        fit_refs_ok(refs@, room as nat, kept_views(r.0@), r.1 as nat),
{
    let n = refs.len();
    let ghost ts = ref_texts(refs@);
    let mut kept: Vec<(RefKind, String)> = Vec::new();
    let mut used: usize = 3;
    let mut i: usize = 0;
    let mut stopped = false;
    proof {
        lemma_pow10_20();
    }
    while i < n && !stopped
        invariant
            n == refs@.len(),
            ts == ref_texts(refs@),
            i <= n,
            !stopped ==> kept@.len() == i,
            stopped ==> i < n && !fits(ts, i + 1, room as nat),
            stopped && i == 0 ==> kept@.len() == 1 && kept_views(kept@)[0] == (
                refs@[0].kind,
                cut_first(ts[0], room as nat, n as nat),
            ),
            stopped && i > 0 ==> kept@.len() == i,
            used as nat == prefix_cols(ts, i as int),
            forall|j: int| 1 <= j <= i ==> #[trigger] fits(ts, j, room as nat),
            forall|j: int| 0 <= j < i ==> #[trigger] kept_views(kept@)[j] == (refs@[j].kind, ts[j]),
        decreases n - i + (if stopped {
            0int
        } else {
            1int
        }),
    {
        let text = refs[i].text_chars();
        assert(text@ == ts[i as int]);
        let sep: usize = if i == 0 {
            0
        } else {
            2
        };
        let len = text.len();
        let m = more_of(n - i - 1);
        proof {
            lemma_sum_lens_step(ts, i as int);
        }
        if (used as u128) + (sep as u128) + (len as u128) + (m as u128) > room as u128 {
            assert(!fits(ts, i + 1, room as nat));
            if i == 0 {
                let m0 = more_of(n - 1);
                let fit = if room >= 3 + m0 + 2 {
                    room - 3 - m0
                } else {
                    2
                };
                let keep = if fit - 1 <= len {
                    fit - 1
                } else {
                    len
                };
                let cut = concat(&slice_vec(&text, 0, keep), &['…']);
                assert(cut@ =~= cut_first(ts[0], room as nat, n as nat));
                kept.push((refs[0].kind, string_of(&cut)));
                assert(kept_views(kept@)[0] == (refs@[0].kind, cut@));
            }
            stopped = true;
        } else {
            used = used + sep + len;
            let s = string_of(&text);
            let ghost before = kept_views(kept@);
            kept.push((refs[i].kind, s));
            assert(kept_views(kept@) =~= before.push((refs@[i as int].kind, ts[i as int])));
            i = i + 1;
        }
    }
    let hidden = n - kept.len();
    (kept, hidden)
}

/// Columns a fitted row draws: `(`, the kept texts with `, ` between them,
/// `, +N` when labels were left off, and `) `.
pub open spec fn drawn_cols(kept: Seq<(RefKind, Seq<char>)>, hidden: nat) -> nat {
    prefix_cols(kept.map_values(|p: (RefKind, Seq<char>)| p.1), kept.len() as int) + more_cols(
        hidden,
    )
}

proof fn lemma_sum_lens_same(a: Seq<Seq<char>>, b: Seq<Seq<char>>, j: int)
    requires
        0 <= j <= a.len(),
        j <= b.len(),
        forall|i: int| 0 <= i < j ==> a[i].len() == b[i].len(),
    ensures
        sum_lens(a, j) == sum_lens(b, j),
    decreases j,
{
    if j > 0 {
        lemma_sum_lens_same(a, b, j - 1);
    }
}

/// Ref labels never run past their room and keep the first: given room for
/// the parentheses, a two-column cut of the first label and the `+N` for the
/// rest, the row `fit_refs` answers keeps at least one label, loses none from
/// the count, draws no wider than `room`, and only its first label may be cut.
pub proof fn lemma_fit_refs_within_room(
    refs: Seq<RefLabel>,
    room: nat,
    kept: Seq<(RefKind, Seq<char>)>,
    hidden: nat,
)
    requires
        fit_refs_ok(refs, room, kept, hidden),
        refs.len() > 0,
        room >= 5 + more_cols((refs.len() - 1) as nat),
    ensures
        kept.len() >= 1,
        kept.len() + hidden == refs.len(),
        drawn_cols(kept, hidden) <= room,
        forall|j: int| 1 <= j < kept.len() ==> kept[j].1 == ref_texts(refs)[j],
{
    let ts = ref_texts(refs);
    let n = refs.len();
    let ks = kept.map_values(|p: (RefKind, Seq<char>)| p.1);
    if !fits(ts, 1, room) {
        assert(ks[0] == cut_first(ts[0], room, n));
        assert(sum_lens(ks, 1) == sum_lens(ks, 0) + ks[0].len());
    } else {
        let k = kept.len() as int;
        assert(fits(ts, k, room));
        assert forall|i: int| 0 <= i < k implies ks[i].len() == ts[i].len() by {
            assert(kept[i] == (refs[i].kind, ts[i]));
        }
        lemma_sum_lens_same(ks, ts, k);
    }
}

// ── refs a commit carries ───────────────────────────────────────────────────

/// The log flag `parse_refs` needs: full names are what tell a local branch
/// called `origin/x` from the remote's `x`.
pub const DECORATE: &'static str = "--decorate=full";

/// One entry of `%D` as a label: branches, remote branches and tags; not the
/// stash, not `itag`'s copy of remote tags, and not `origin/HEAD`, which only
/// repeats the remote's default branch.
pub open spec fn ref_of(r: Seq<char>) -> Option<(RefKind, Seq<char>)> {
    match strip_prefix(r, "HEAD -> refs/heads/"@) {
        Some(b) => Some((RefKind::Head, b)),
        None => if r == "HEAD"@ {
            Some((RefKind::Detached, r))
        } else {
            match strip_prefix(r, "refs/heads/"@) {
                Some(b) => Some((RefKind::Branch, b)),
                None => match strip_prefix(r, "tag: refs/tags/"@) {
                    Some(t) => Some((RefKind::Tag, t)),
                    None => match strip_prefix(r, "refs/remotes/"@) {
                        Some(b) => if !ends_with(b, "/HEAD"@) {
                            Some((RefKind::Remote, b))
                        } else {
                            None
                        },
                        None => None,
                    },
                },
            }
        },
    }
}

/// The labels among `%D`'s entries, in order.
pub open spec fn refs_of(parts: Seq<Seq<char>>) -> Seq<(RefKind, Seq<char>)>
    decreases parts.len(),
{
    if parts.len() == 0 {
        seq![]
    } else {
        refs_of(parts.drop_last()) + match ref_of(parts.last()) {
            Some(x) => seq![x],
            None => seq![],
        }
    }
}

fn ref_in(r: &[char]) -> (x: Option<(RefKind, Vec<char>)>)
    ensures
        match x {
            Some((k, v)) => ref_of(r@) == Some((k, v@)),
            None => ref_of(r@) is None,
        },
{
    if let Some(b) = strip_prefix_in(r, &chars_of("HEAD -> refs/heads/")) {
        return Some((RefKind::Head, b));
    }
    if same(r, &chars_of("HEAD")) {
        return Some((RefKind::Detached, slice_vec(r, 0, r.len())));
    }
    if let Some(b) = strip_prefix_in(r, &chars_of("refs/heads/")) {
        return Some((RefKind::Branch, b));
    }
    if let Some(t) = strip_prefix_in(r, &chars_of("tag: refs/tags/")) {
        return Some((RefKind::Tag, t));
    }
    if let Some(b) = strip_prefix_in(r, &chars_of("refs/remotes/")) {
        if !ends_with_in(&b, &chars_of("/HEAD")) {
            return Some((RefKind::Remote, b));
        }
    }
    None
}

/// `%D` back into labels. Only branches, remote branches and tags are kept:
/// the stash and `itag`'s copy of remote tags are not something a log reader
/// asked about, and `origin/HEAD` only repeats the remote's default branch.
pub fn parse_refs(d: &str) -> (v: Vec<RefLabel>)
    ensures
        label_views(v@) == refs_of(split(d@, seq![',', ' '])),
{
    let sep = [',', ' '];
    assert(sep@ =~= seq![',', ' ']);
    let parts = split_in(&chars_of(d), &sep);
    let ghost ps = seqs(parts@);
    let mut out: Vec<RefLabel> = Vec::new();
    let mut k: usize = 0;
    assert(ps.take(0) =~= Seq::<Seq<char>>::empty());
    while k < parts.len()
        invariant
            k <= parts@.len(),
            ps == seqs(parts@),
            label_views(out@) == refs_of(ps.take(k as int)),
        decreases parts@.len() - k,
    {
        assert(ps[k as int] == parts@[k as int]@);
        assert(ps.take(k + 1).drop_last() =~= ps.take(k as int));
        let ghost before = label_views(out@);
        match ref_in(&parts[k]) {
            Some((kind, name)) => {
                out.push(RefLabel { kind, name: string_of(&name) });
                assert(label_views(out@) =~= before.push((kind, name@)));
            },
            None => {},
        }
        k = k + 1;
    }
    assert(ps.take(ps.len() as int) =~= ps);
    out
}

// ── commits ─────────────────────────────────────────────────────────────────

pub struct Commit {
    pub hash: String,
    pub short: String,
    pub date: String,
    pub committer: String,
    pub refs: Vec<RefLabel>,
    pub subject: String,
}

/// The `i`th field, or nothing when the line has fewer (`next().unwrap_or("")`).
pub open spec fn field_or_empty(f: Seq<Seq<char>>, i: int) -> Seq<char> {
    if 0 <= i < f.len() {
        f[i]
    } else {
        seq![]
    }
}

/// The fields of one `--format` line.
pub open spec fn fields(line: Seq<char>) -> Seq<Seq<char>> {
    split(line, seq![SEP])
}

/// `%H SEP %h SEP %ad SEP %cn SEP %D SEP %s` read back: a line with fewer than
/// five fields is not a commit; the subject may be missing.
pub open spec fn commit_line_ok(line: Seq<char>, c: Commit) -> bool {
    let f = fields(line);
    &&& f.len() >= 5
    &&& c.hash@ == f[0]
    &&& c.short@ == f[1]
    &&& c.date@ == f[2]
    &&& c.committer@ == f[3]
    &&& label_views(c.refs@) == refs_of(split(f[4], seq![',', ' ']))
    &&& c.subject@ == field_or_empty(f, 5)
}

/// The pieces of a `--format` line split on `SEP`.
pub fn fields_in(line: &str) -> (f: Vec<Vec<char>>)
    ensures
        seqs(f@) == fields(line@),
        f@.len() >= 1,
{
    let sep = [SEP];
    assert(sep@ =~= seq![SEP]);
    let f = split_in(&chars_of(line), &sep);
    proof {
        crate::text::lemma_split_nonempty(line@, seq![SEP]);
    }
    f
}

/// The `i`th field as a `String`, or an empty one.
pub fn field_string(f: &Vec<Vec<char>>, i: usize) -> (s: String)
    ensures
        s@ == field_or_empty(seqs(f@), i as int),
{
    if i < f.len() {
        assert(seqs(f@)[i as int] == f@[i as int]@);
        string_of(&f[i])
    } else {
        String::new()
    }
}

/// One `--pretty=format:` line back into a `Commit`.
pub fn parse_commit(line: &str) -> (r: Option<Commit>)
    ensures
        match r {
            Some(c) => commit_line_ok(line@, c),
            None => fields(line@).len() < 5,
        },
{
    let f = fields_in(line);
    if f.len() < 5 {
        return None;
    }
    let refs_text = string_of(&f[4]);
    assert(seqs(f@)[4] == f@[4]@);
    Some(Commit {
        hash: field_string(&f, 0),
        short: field_string(&f, 1),
        date: field_string(&f, 2),
        committer: field_string(&f, 3),
        refs: parse_refs(refs_text.as_str()),
        subject: field_string(&f, 5),
    })
}

// ── branches ────────────────────────────────────────────────────────────────

pub struct Branch {
    pub is_head: bool,
    pub remote: bool,
    /// `main`, or `origin/main` for a remote one.
    pub name: String,
    /// The full ref, which is what git is handed: a bare name is read as the
    /// tag when a tag shares it.
    pub refname: String,
    pub rel: String,
    pub author: String,
    pub has_upstream: bool,
    /// `origin/feat/x`, or empty when it tracks nothing.
    pub upstream: String,
    /// Raw `%(upstream:track)`: "", "[gone]", "[ahead 2, behind 1]", …
    pub track: String,
}

/// A branch's name cut from its full ref: local or remote-tracking, and
/// nothing else.
pub open spec fn branch_name(refname: Seq<char>) -> Option<Seq<char>> {
    match strip_prefix(refname, "refs/heads/"@) {
        Some(n) => Some(n),
        None => strip_prefix(refname, "refs/remotes/"@),
    }
}

/// One `for-each-ref` line of `branch_format` read back. The symbolic
/// `refs/remotes/*/HEAD` alias is not a branch, and neither is a ref outside
/// `refs/heads` and `refs/remotes`.
pub open spec fn branch_line_ok(line: Seq<char>, b: Branch) -> bool {
    let f = fields(line);
    let refname = f[1];
    let upstream = field_or_empty(f, 4);
    &&& f.len() >= 2
    &&& !ends_with(refname, "/HEAD"@)
    &&& branch_name(refname) == Some(b.name@)
    &&& b.is_head == (crate::text::trim(f[0]) == seq!['*'])
    &&& b.remote == crate::text::starts_with(refname, "refs/remotes/"@)
    &&& b.refname@ == refname
    &&& b.rel@ == field_or_empty(f, 2)
    &&& b.author@ == field_or_empty(f, 3)
    &&& b.has_upstream == (upstream.len() > 0)
    &&& b.upstream@ == match strip_prefix(upstream, "refs/remotes/"@) {
        Some(u) => u,
        None => upstream,
    }
    &&& b.track@ == field_or_empty(f, 5)
}

/// Whether a line is one `parse_branch` turns down.
pub open spec fn not_a_branch(line: Seq<char>) -> bool {
    let f = fields(line);
    f.len() < 2 || ends_with(f[1], "/HEAD"@) || branch_name(f[1]) is None
}

/// One `for-each-ref` line back into a `Branch`. Names are cut from the full
/// refs rather than taken from `:short`, which answers `heads/v1` when a tag is
/// also called `v1`.
pub fn parse_branch(line: &str) -> (r: Option<Branch>)
    ensures
        match r {
            Some(b) => branch_line_ok(line@, b),
            None => not_a_branch(line@),
        },
{
    let f = fields_in(line);
    if f.len() < 2 {
        return None;
    }
    assert(seqs(f@)[0] == f@[0]@);
    assert(seqs(f@)[1] == f@[1]@);
    let refname = &f[1];
    if ends_with_in(refname, &chars_of("/HEAD")) {
        return None;
    }
    let name = match strip_prefix_in(refname, &chars_of("refs/heads/")) {
        Some(n) => n,
        None => match strip_prefix_in(refname, &chars_of("refs/remotes/")) {
            Some(n) => n,
            None => {
                return None;
            },
        },
    };
    let head = crate::text::trim_in(&f[0]);
    let star = ['*'];
    assert(star@ =~= seq!['*']);
    let upstream: Vec<char> = if f.len() > 4 {
        assert(seqs(f@)[4] == f@[4]@);
        slice_vec(&f[4], 0, f[4].len())
    } else {
        Vec::new()
    };
    assert(upstream@ =~= field_or_empty(seqs(f@), 4));
    let up_short = match strip_prefix_in(&upstream, &chars_of("refs/remotes/")) {
        Some(u) => u,
        None => slice_vec(&upstream, 0, upstream.len()),
    };
    assert(up_short@ =~= match strip_prefix(upstream@, "refs/remotes/"@) {
        Some(u) => u,
        None => upstream@,
    });
    Some(Branch {
        is_head: same(&head, &star),
        remote: starts_with_in(refname, &chars_of("refs/remotes/")),
        name: string_of(&name),
        refname: string_of(refname),
        rel: field_string(&f, 2),
        author: field_string(&f, 3),
        has_upstream: upstream.len() > 0,
        upstream: string_of(&up_short),
        track: field_string(&f, 5),
    })
}

/// The lines `parse_branch` reads as branches.
pub open spec fn branch_lines(ls: Seq<Seq<char>>) -> Seq<Seq<char>> {
    ls.filter(|l: Seq<char>| !not_a_branch(l))
}

/// Every branch (local + remote-tracking) with its push state, in the order
/// `for-each-ref --sort=-committerdate` listed them: newest first.
pub fn load_branches(listing: &str) -> (v: Vec<Branch>)
    ensures
        v@.len() == branch_lines(lines(listing@)).len(),
        forall|i: int|
            0 <= i < v@.len() ==> #[trigger] branch_line_ok(
                branch_lines(lines(listing@))[i],
                v@[i],
            ),
{
    let ls = lines_in(&chars_of(listing));
    let ghost all = seqs(ls@);
    let ghost pred = |l: Seq<char>| !not_a_branch(l);
    let mut out: Vec<Branch> = Vec::new();
    let mut k: usize = 0;
    assert(all.take(0).filter(pred) =~= Seq::<Seq<char>>::empty());
    while k < ls.len()
        invariant
            k <= ls@.len(),
            all == seqs(ls@),
            pred == (|l: Seq<char>| !not_a_branch(l)),
            out@.len() == all.take(k as int).filter(pred).len(),
            forall|i: int|
                0 <= i < out@.len() ==> #[trigger] branch_line_ok(
                    all.take(k as int).filter(pred)[i],
                    out@[i],
                ),
        decreases ls@.len() - k,
    {
        reveal_with_fuel(Seq::<_>::filter, 1);
        assert(all.take(k + 1).drop_last() =~= all.take(k as int));
        assert(all[k as int] == ls@[k as int]@);
        let line = string_of(&ls[k]);
        let ghost before = all.take(k as int).filter(pred);
        match parse_branch(line.as_str()) {
            Some(b) => {
                assert(all.take(k + 1).filter(pred) =~= before.push(all[k as int]));
                out.push(b);
            },
            None => {
                assert(all.take(k + 1).filter(pred) =~= before);
            },
        }
        k = k + 1;
    }
    assert(all.take(all.len() as int) =~= all);
    out
}

/// The lines `parse_commit` reads as commits.
pub open spec fn commit_lines(ls: Seq<Seq<char>>) -> Seq<Seq<char>> {
    ls.filter(|l: Seq<char>| fields(l).len() >= 5)
}

/// A `git log --pretty=format:%H SEP %h SEP %ad SEP %cn SEP %D SEP %s`
/// listing back into commits, newest first as git walked them.
pub fn load_commits(listing: &str) -> (v: Vec<Commit>)
    ensures
        v@.len() == commit_lines(lines(listing@)).len(),
        forall|i: int|
            0 <= i < v@.len() ==> #[trigger] commit_line_ok(
                commit_lines(lines(listing@))[i],
                v@[i],
            ),
{
    let ls = lines_in(&chars_of(listing));
    let ghost all = seqs(ls@);
    let ghost pred = |l: Seq<char>| fields(l).len() >= 5;
    let mut out: Vec<Commit> = Vec::new();
    let mut k: usize = 0;
    assert(all.take(0).filter(pred) =~= Seq::<Seq<char>>::empty());
    while k < ls.len()
        invariant
            k <= ls@.len(),
            all == seqs(ls@),
            pred == (|l: Seq<char>| fields(l).len() >= 5),
            out@.len() == all.take(k as int).filter(pred).len(),
            forall|i: int|
                0 <= i < out@.len() ==> #[trigger] commit_line_ok(
                    all.take(k as int).filter(pred)[i],
                    out@[i],
                ),
        decreases ls@.len() - k,
    {
        reveal_with_fuel(Seq::<_>::filter, 1);
        assert(all.take(k + 1).drop_last() =~= all.take(k as int));
        assert(all[k as int] == ls@[k as int]@);
        let line = string_of(&ls[k]);
        let ghost before = all.take(k as int).filter(pred);
        match parse_commit(line.as_str()) {
            Some(c) => {
                assert(all.take(k + 1).filter(pred) =~= before.push(all[k as int]));
                out.push(c);
            },
            None => {
                assert(all.take(k + 1).filter(pred) =~= before);
            },
        }
        k = k + 1;
    }
    assert(all.take(all.len() as int) =~= all);
    out
}

/// The lines of a capture, as strings.
pub fn lines_of(out: &str) -> (v: Vec<String>)
    ensures
        string_views(v@) == lines(out@),
{
    let ls = lines_in(&chars_of(out));
    let mut v: Vec<String> = Vec::new();
    let mut k: usize = 0;
    while k < ls.len()
        invariant
            k <= ls@.len(),
            string_views(v@) =~= seqs(ls@).take(k as int),
        decreases ls@.len() - k,
    {
        let ghost before = string_views(v@);
        v.push(string_of(&ls[k]));
        assert(string_views(v@) =~= before.push(ls@[k as int]@));
        assert(seqs(ls@).take(k + 1) =~= seqs(ls@).take(k as int).push(seqs(ls@)[k as int]));
        k = k + 1;
    }
    assert(seqs(ls@).take(ls@.len() as int) =~= seqs(ls@));
    v
}

/// Hashes reachable from local branches but on **no** remote - i.e. commits
/// you haven't pushed anywhere - from `rev-list --branches --not --remotes`.
/// Empty when git could not answer (nothing is "pushed").
pub fn load_unpushed(listing: Option<&str>) -> (v: Vec<String>)
    ensures
        string_views(v@) == match listing {
            Some(out) => lines(out@),
            None => Seq::<Seq<char>>::empty(),
        },
{
    match listing {
        Some(out) => lines_of(out),
        None => Vec::new(),
    }
}

/// Whether `hash` is among the unpushed ones.
pub fn is_unpushed(unpushed: &Vec<String>, hash: &str) -> (b: bool)
    ensures
        b == string_views(unpushed@).contains(hash@),
{
    let h = chars_of(hash);
    let mut k: usize = 0;
    while k < unpushed.len()
        invariant
            k <= unpushed@.len(),
            h@ == hash@,
            forall|j: int| 0 <= j < k ==> unpushed@[j]@ != hash@,
        decreases unpushed@.len() - k,
    {
        let u = chars_of(unpushed[k].as_str());
        assert(u@ == unpushed@[k as int]@);
        let eq = same(&u, &h);
        assert(h@ == hash@);
        assert(eq == (u@ == h@));
        assert(eq == (unpushed@[k as int]@ == hash@));
        if eq {
            assert(string_views(unpushed@)[k as int] == hash@);
            return true;
        }
        k = k + 1;
    }
    assert(!string_views(unpushed@).contains(hash@)) by {
        if string_views(unpushed@).contains(hash@) {
            let j = choose|j: int|
                0 <= j < unpushed@.len() && string_views(unpushed@)[j] == hash@;
            assert(unpushed@[j]@ == hash@);
        }
    }
    false
}

/// The newest commit hash a log produced, or empty when it has none.
pub fn first_commit(listing: Option<&str>) -> (h: String)
    ensures
        h@ == match listing {
            Some(out) => out@,
            None => Seq::<char>::empty(),
        },
{
    match listing {
        Some(out) => string_of(&chars_of(out)),
        None => String::new(),
    }
}

// ── files a commit touched ──────────────────────────────────────────────────

pub struct FileEntry {
    pub status: char,
    pub path: String,
}

/// One `--name-status` line: its status letter is the first character of the
/// first tab-separated field, and its path the last field, which is the new
/// name of a rename (`R100\told\tnew`). A line without both is skipped.
pub open spec fn file_of(line: Seq<char>) -> Option<(char, Seq<char>)> {
    let parts = split(line, seq!['\t']);
    if line.len() > 0 && parts[0].len() > 0 && parts.len() >= 2 {
        Some((parts[0][0], parts.last()))
    } else {
        None
    }
}

pub open spec fn files_of(ls: Seq<Seq<char>>) -> Seq<(char, Seq<char>)>
    decreases ls.len(),
{
    if ls.len() == 0 {
        seq![]
    } else {
        files_of(ls.drop_last()) + match file_of(ls.last()) {
            Some(x) => seq![x],
            None => seq![],
        }
    }
}

pub open spec fn file_views(v: Seq<FileEntry>) -> Seq<(char, Seq<char>)> {
    v.map_values(|f: FileEntry| (f.status, f.path@))
}

/// The files a commit touched, with their status, from `git show
/// --name-status --format=`.
pub fn load_files(listing: &str) -> (v: Vec<FileEntry>)
    ensures
        file_views(v@) == files_of(lines(listing@)),
{
    let ls = lines_in(&chars_of(listing));
    let ghost all = seqs(ls@);
    let tab = ['\t'];
    assert(tab@ =~= seq!['\t']);
    let mut out: Vec<FileEntry> = Vec::new();
    let mut k: usize = 0;
    assert(all.take(0) =~= Seq::<Seq<char>>::empty());
    while k < ls.len()
        invariant
            k <= ls@.len(),
            all == seqs(ls@),
            tab@ == seq!['\t'],
            file_views(out@) == files_of(all.take(k as int)),
        decreases ls@.len() - k,
    {
        assert(all.take(k + 1).drop_last() =~= all.take(k as int));
        assert(all[k as int] == ls@[k as int]@);
        let line = &ls[k];
        let ghost before = file_views(out@);
        if line.len() > 0 {
            let parts = split_in(line, &tab);
            proof {
                crate::text::lemma_split_nonempty(line@, seq!['\t']);
            }
            assert(seqs(parts@)[0] == parts@[0]@);
            if parts[0].len() > 0 && parts.len() >= 2 {
                let n = parts.len();
                assert(seqs(parts@)[n - 1] == parts@[n - 1]@);
                let status = parts[0][0];
                let path = string_of(&parts[n - 1]);
                assert(status == parts@[0]@[0]);
                assert(path@ == parts@[n - 1]@);
                let ghost pv = path@;
                push_file(&mut out, status, path);
                assert(file_views(out@) =~= before.push((status, pv)));
                assert(file_of(line@) == Some((status, pv)));
            }
        }
        k = k + 1;
    }
    assert(all.take(all.len() as int) =~= all);
    out
}

fn push_file(out: &mut Vec<FileEntry>, status: char, path: String)
    ensures
        file_views(final(out)@) == file_views(old(out)@).push((status, path@)),
{
    let ghost before = file_views(out@);
    let ghost pv = path@;
    out.push(FileEntry { status, path });
    assert(file_views(out@) =~= before.push((status, pv)));
}

// ── tags ────────────────────────────────────────────────────────────────────

pub struct Tag {
    pub name: String,
    pub date: String,
    pub annotated: bool,
    /// What the ref itself names: the tag object when annotated, the commit
    /// otherwise. Two sides agree on a tag only when this matches.
    pub object: String,
    /// The commit underneath, which is where the tag's log starts.
    pub commit: String,
    /// The tag's own message when annotated, its commit's subject otherwise.
    pub subject: String,
    pub state: TagState,
}

/// Where a tag stands against the remote.
#[derive(Clone, Copy, PartialEq, Eq, Debug, Structural)]
pub enum TagState {
    /// The remote has not answered yet, or could not be asked.
    Unknown,
    /// Here and not on the remote.
    Local,
    /// On both, naming the same object.
    Pushed,
    /// On both, naming different objects: one side tagged again.
    Differs,
    /// On the remote and not here, which a fetch has not brought in yet.
    Remote,
}

/// The commit a ref leads to: the peeled object when there is one, else the
/// object itself.
pub open spec fn peeled_or(object: Seq<char>, peeled: Seq<char>) -> Seq<char> {
    if peeled.len() == 0 {
        object
    } else {
        peeled
    }
}

/// One `load_tags` line read back: at least five fields, the first a tag's
/// full ref; the state is not known until the remote is asked.
pub open spec fn tag_line_ok(line: Seq<char>, t: Tag) -> bool {
    let f = fields(line);
    &&& f.len() >= 5
    &&& strip_prefix(f[0], "refs/tags/"@) == Some(t.name@)
    &&& t.date@ == f[1]
    &&& t.annotated == (f[2] == "tag"@)
    &&& t.object@ == f[3]
    &&& t.commit@ == peeled_or(f[3], f[4])
    &&& t.subject@ == field_or_empty(f, 5)
    &&& t.state == TagState::Unknown
}

pub open spec fn is_tag_line(line: Seq<char>) -> bool {
    let f = fields(line);
    f.len() >= 5 && strip_prefix(f[0], "refs/tags/"@) is Some
}

/// One `for-each-ref` line back into a `Tag`. The name comes from `%(refname)`
/// because `:short` answers `tags/v1` when a branch is also called `v1`.
pub fn parse_tag(line: &str) -> (r: Option<Tag>)
    ensures
        match r {
            Some(t) => tag_line_ok(line@, t),
            None => !is_tag_line(line@),
        },
{
    let f = fields_in(line);
    if f.len() < 5 {
        return None;
    }
    assert(seqs(f@)[0] == f@[0]@);
    assert(seqs(f@)[2] == f@[2]@);
    assert(seqs(f@)[3] == f@[3]@);
    assert(seqs(f@)[4] == f@[4]@);
    let name = match strip_prefix_in(&f[0], &chars_of("refs/tags/")) {
        Some(n) => n,
        None => {
            return None;
        },
    };
    let commit = if f[4].len() == 0 {
        string_of(&f[3])
    } else {
        string_of(&f[4])
    };
    Some(Tag {
        name: string_of(&name),
        date: field_string(&f, 1),
        annotated: same(&f[2], &chars_of("tag")),
        object: string_of(&f[3]),
        commit,
        subject: field_string(&f, 5),
        state: TagState::Unknown,
    })
}

pub open spec fn tag_lines(ls: Seq<Seq<char>>) -> Seq<Seq<char>> {
    ls.filter(|l: Seq<char>| is_tag_line(l))
}

/// Every local tag, in the order `for-each-ref --sort=-creatordate` listed
/// them: newest first.
pub fn load_tags(listing: &str) -> (v: Vec<Tag>)
    ensures
        v@.len() == tag_lines(lines(listing@)).len(),
        forall|i: int|
            0 <= i < v@.len() ==> #[trigger] tag_line_ok(tag_lines(lines(listing@))[i], v@[i]),
{
    let ls = lines_in(&chars_of(listing));
    let ghost all = seqs(ls@);
    let ghost pred = |l: Seq<char>| is_tag_line(l);
    let mut out: Vec<Tag> = Vec::new();
    let mut k: usize = 0;
    assert(all.take(0).filter(pred) =~= Seq::<Seq<char>>::empty());
    while k < ls.len()
        invariant
            k <= ls@.len(),
            all == seqs(ls@),
            pred == (|l: Seq<char>| is_tag_line(l)),
            out@.len() == all.take(k as int).filter(pred).len(),
            forall|i: int|
                0 <= i < out@.len() ==> #[trigger] tag_line_ok(
                    all.take(k as int).filter(pred)[i],
                    out@[i],
                ),
        decreases ls@.len() - k,
    {
        reveal_with_fuel(Seq::<_>::filter, 1);
        assert(all.take(k + 1).drop_last() =~= all.take(k as int));
        assert(all[k as int] == ls@[k as int]@);
        let line = string_of(&ls[k]);
        let ghost before = all.take(k as int).filter(pred);
        match parse_tag(line.as_str()) {
            Some(t) => {
                assert(all.take(k + 1).filter(pred) =~= before.push(all[k as int]));
                out.push(t);
            },
            None => {
                assert(all.take(k + 1).filter(pred) =~= before);
            },
        }
        k = k + 1;
    }
    assert(all.take(all.len() as int) =~= all);
    out
}

/// The fetch rule that has git keep a copy of `remote`'s tags, the way the rule
/// every clone gets keeps `origin/main`. Outside `refs/remotes/` on purpose:
/// under it every tag would list as a remote branch in `git branch -r`, and a
/// branch called `tags/x` would land on the same ref as a tag called `x`.
pub open spec fn tag_rule_of(remote: Seq<char>) -> Seq<char> {
    "+refs/tags/*:refs/remote-tags/"@ + remote + "/*"@
}

pub fn tag_rule(remote: &str) -> (r: String)
    ensures
        r@ == tag_rule_of(remote@),
{
    let a = concat(&chars_of("+refs/tags/*:refs/remote-tags/"), &chars_of(remote));
    string_of(&concat(&a, &chars_of("/*")))
}

/// Whether a line list holds `want`.
pub fn has_line(ls: &Vec<Vec<char>>, want: &[char]) -> (b: bool)
    ensures
        b == seqs(ls@).contains(want@),
{
    let mut k: usize = 0;
    while k < ls.len()
        invariant
            k <= ls@.len(),
            forall|j: int| 0 <= j < k ==> ls@[j]@ != want@,
        decreases ls@.len() - k,
    {
        if same(&ls[k], want) {
            assert(seqs(ls@)[k as int] == want@);
            return true;
        }
        k = k + 1;
    }
    assert(!seqs(ls@).contains(want@)) by {
        if seqs(ls@).contains(want@) {
            let j = choose|j: int| 0 <= j < ls@.len() && seqs(ls@)[j] == want@;
            assert(ls@[j]@ == want@);
        }
    }
    false
}

/// Whether this repo already has `tag_rule` for `remote` among the
/// `remote.<remote>.fetch` rules git listed, so git keeps the copy current on
/// every fetch and push. No rules at all is a no.
pub fn tracks_tags(rules: Option<&str>, remote: &str) -> (b: bool)
    ensures
        b == match rules {
            Some(r) => lines(r@).contains(tag_rule_of(remote@)),
            None => false,
        },
{
    match rules {
        Some(r) => {
            let ls = lines_in(&chars_of(r));
            let rule = tag_rule(remote);
            has_line(&ls, &chars_of(rule.as_str()))
        },
        None => false,
    }
}

/// The remote a repo's tags are compared against: `origin` when `git remote`
/// lists it, since that is where tags get pushed, else whichever remote it
/// lists first; none when it lists none.
pub open spec fn tag_remote_of(remotes: Seq<char>) -> Option<Seq<char>> {
    let ls = lines(remotes);
    if ls.contains("origin"@) {
        Some("origin"@)
    } else if ls.len() > 0 {
        Some(ls[0])
    } else {
        None
    }
}

pub fn tag_remote(remotes: &str) -> (r: Option<String>)
    ensures
        match r {
            Some(s) => tag_remote_of(remotes@) == Some(s@),
            None => tag_remote_of(remotes@) is None,
        },
{
    let ls = lines_in(&chars_of(remotes));
    let origin = chars_of("origin");
    if has_line(&ls, &origin) {
        return Some(string_of(&origin));
    }
    if ls.len() > 0 {
        assert(seqs(ls@)[0] == ls@[0]@);
        return Some(string_of(&ls[0]));
    }
    None
}

/// The remotes `git remote -v` lists for fetching, each with its URL: a line
/// ending in `(fetch)` whose first two words are the name and the URL.
pub open spec fn remote_url_of(line: Seq<char>) -> Option<(Seq<char>, Seq<char>)> {
    let w = words(line);
    if ends_with(line, "(fetch)"@) && w.len() >= 2 {
        Some((w[0], w[1]))
    } else {
        None
    }
}

pub open spec fn remote_urls_of(ls: Seq<Seq<char>>) -> Seq<(Seq<char>, Seq<char>)>
    decreases ls.len(),
{
    if ls.len() == 0 {
        seq![]
    } else {
        remote_urls_of(ls.drop_last()) + match remote_url_of(ls.last()) {
            Some(x) => seq![x],
            None => seq![],
        }
    }
}

pub open spec fn pair_views(v: Seq<(String, String)>) -> Seq<(Seq<char>, Seq<char>)> {
    v.map_values(|p: (String, String)| (p.0@, p.1@))
}

fn push_pair(out: &mut Vec<(String, String)>, a: String, b: String)
    ensures
        pair_views(final(out)@) == pair_views(old(out)@).push((a@, b@)),
{
    let ghost before = pair_views(out@);
    let ghost av = a@;
    let ghost bv = b@;
    out.push((a, b));
    assert(pair_views(out@) =~= before.push((av, bv)));
}

/// Every remote and the URL it fetches from, from `git remote -v`.
pub fn remote_urls(listing: &str) -> (v: Vec<(String, String)>)
    ensures
        pair_views(v@) == remote_urls_of(lines(listing@)),
{
    let ls = lines_in(&chars_of(listing));
    let ghost all = seqs(ls@);
    let fetch = chars_of("(fetch)");
    let mut out: Vec<(String, String)> = Vec::new();
    let mut k: usize = 0;
    assert(all.take(0) =~= Seq::<Seq<char>>::empty());
    while k < ls.len()
        invariant
            k <= ls@.len(),
            all == seqs(ls@),
            fetch@ == "(fetch)"@,
            pair_views(out@) == remote_urls_of(all.take(k as int)),
        decreases ls@.len() - k,
    {
        assert(all.take(k + 1).drop_last() =~= all.take(k as int));
        assert(all[k as int] == ls@[k as int]@);
        let line = &ls[k];
        if ends_with_in(line, &fetch) {
            let w = words_in(line);
            if w.len() >= 2 {
                assert(seqs(w@)[0] == w@[0]@);
                assert(seqs(w@)[1] == w@[1]@);
                push_pair(&mut out, string_of(&w[0]), string_of(&w[1]));
            }
        }
        k = k + 1;
    }
    assert(all.take(all.len() as int) =~= all);
    out
}

/// What a commit row has no room for: both people, its parents, the whole
/// message.
pub struct CommitDetails {
    /// `name <email>`, and when, both dated and relative.
    pub author: String,
    pub authored: String,
    pub committer: String,
    pub committed: String,
    /// Short hashes; more than one is a merge.
    pub parents: Vec<String>,
    pub message: String,
}

/// `git show -s --format=%an <%ae> SEP %ad (%ar) SEP %cn <%ce> SEP %cd (%cr)
/// SEP %p SEP %B` read back: five fields at least, the parents split on
/// whitespace, the message trimmed.
pub open spec fn details_ok(out: Seq<char>, d: CommitDetails) -> bool {
    let f = fields(out);
    &&& f.len() >= 5
    &&& d.author@ == f[0]
    &&& d.authored@ == f[1]
    &&& d.committer@ == f[2]
    &&& d.committed@ == f[3]
    &&& string_views(d.parents@) == words(f[4])
    &&& d.message@ == trim(field_or_empty(f, 5))
}

fn strings_of(v: &Vec<Vec<char>>) -> (r: Vec<String>)
    ensures
        string_views(r@) == seqs(v@),
{
    let mut r: Vec<String> = Vec::new();
    let mut k: usize = 0;
    while k < v.len()
        invariant
            k <= v@.len(),
            string_views(r@) =~= seqs(v@).take(k as int),
        decreases v@.len() - k,
    {
        let ghost before = string_views(r@);
        r.push(string_of(&v[k]));
        assert(string_views(r@) =~= before.push(v@[k as int]@));
        assert(seqs(v@).take(k + 1) =~= seqs(v@).take(k as int).push(seqs(v@)[k as int]));
        k = k + 1;
    }
    assert(seqs(v@).take(v@.len() as int) =~= seqs(v@));
    r
}

/// A commit's details from what `git show` printed, or none when git could not
/// show it or printed fewer fields.
pub fn commit_details(shown: Option<&str>) -> (r: Option<CommitDetails>)
    ensures
        match r {
            Some(d) => shown is Some && details_ok(shown->0@, d),
            None => shown is None || fields(shown->0@).len() < 5,
        },
{
    let out = match shown {
        Some(o) => o,
        None => {
            return None;
        },
    };
    let f = fields_in(out);
    if f.len() < 5 {
        return None;
    }
    assert(seqs(f@)[4] == f@[4]@);
    let msg: Vec<char> = if f.len() > 5 {
        assert(seqs(f@)[5] == f@[5]@);
        slice_vec(&f[5], 0, f[5].len())
    } else {
        Vec::new()
    };
    assert(msg@ =~= field_or_empty(seqs(f@), 5));
    Some(CommitDetails {
        author: field_string(&f, 0),
        authored: field_string(&f, 1),
        committer: field_string(&f, 2),
        committed: field_string(&f, 3),
        parents: strings_of(&words_in(&f[4])),
        message: string_of(&trim_in(&msg)),
    })
}

/// An annotated tag's tagger (`name <email>`) and whole message, from
/// `for-each-ref --format=%(taggername) %(taggeremail) SEP %(contents)`; none
/// for a lightweight one, whose tagger comes back blank.
pub open spec fn tag_details_of(out: Seq<char>) -> Option<(Seq<char>, Seq<char>)> {
    match split_once(out, seq![SEP]) {
        Some((tagger, message)) => if trim(tagger).len() > 0 {
            Some((trim(tagger), trim(message)))
        } else {
            None
        },
        None => None,
    }
}

pub fn tag_details(shown: Option<&str>) -> (r: Option<(String, String)>)
    ensures
        match r {
            Some((t, m)) => shown is Some && tag_details_of(shown->0@) == Some((t@, m@)),
            None => shown is None || tag_details_of(shown->0@) is None,
        },
{
    let out = match shown {
        Some(o) => o,
        None => {
            return None;
        },
    };
    let sep = [SEP];
    assert(sep@ =~= seq![SEP]);
    let (tagger, message) = match split_once_in(&chars_of(out), &sep) {
        Some(p) => p,
        None => {
            return None;
        },
    };
    let tagger = trim_in(&tagger);
    if tagger.len() == 0 {
        return None;
    }
    Some((string_of(&tagger), string_of(&trim_in(&message))))
}

/// Whether merging a branch into trunk would leave trunk's tree exactly as it
/// is: the tree `merge-tree --write-tree` printed first is the one trunk
/// already has. Either answer missing (a conflict, an old git) reads as not
/// landed, so the answer only ever errs towards asking for the name.
pub open spec fn landed_of(merged: Option<Seq<char>>, current: Option<Seq<char>>) -> bool {
    match (merged, current) {
        (Some(m), Some(c)) => lines(m).len() > 0 && lines(m)[0] == c,
        _ => false,
    }
}

pub fn landed(merged: Option<&str>, current: Option<&str>) -> (b: bool)
    ensures
        b == landed_of(
            match merged {
                Some(m) => Some(m@),
                None => None,
            },
            match current {
                Some(c) => Some(c@),
                None => None,
            },
        ),
{
    match (merged, current) {
        (Some(m), Some(c)) => {
            let ls = lines_in(&chars_of(m));
            if ls.len() == 0 {
                return false;
            }
            assert(seqs(ls@)[0] == ls@[0]@);
            same(&ls[0], &chars_of(c))
        },
        _ => false,
    }
}

/// What fast-forwarding the checked-out branch came to: nothing to pull when
/// it tracks no upstream (`tracks`), git's words when `merge --ff-only` failed
/// (`merged`), else how many commits it moved by, read from `rev-list --count`
/// of the old tip to the new one (anything unreadable counts as none).
pub fn fast_forward_result(tracks: bool, merged: (bool, String), counted: Option<&str>) -> (r: Result<
    Option<usize>,
    String,
>)
    ensures
        !tracks ==> r == Ok::<Option<usize>, String>(None),
        tracks && !merged.0 ==> (r matches Err(words) && words@ == merged.1@),
        tracks && merged.0 ==> (r matches Ok(Some(n)) && n as nat == match counted {
            Some(c) => crate::git::count_or_zero(c@),
            None => 0,
        }),
{
    if !tracks {
        return Ok(None);
    }
    if !merged.0 {
        return Err(merged.1);
    }
    Ok(Some(unique_commits(counted)))
}

/// How many of a local branch's commits no remote has, from `rev-list --count`:
/// what deleting it would throw away for good. Anything unreadable counts as
/// none.
pub fn unique_commits(counted: Option<&str>) -> (n: usize)
    ensures
        n as nat == match counted {
            Some(c) => crate::git::count_or_zero(c@),
            None => 0,
        },
{
    match counted {
        Some(c) => match crate::num::parse_usize(&chars_of(c)) {
            Some(n) => n,
            None => 0,
        },
        None => 0,
    }
}

/// The remote's default branch as git last recorded it (`symbolic-ref --short
/// refs/remotes/<remote>/HEAD`), without its `<remote>/` prefix.
pub fn default_branch(target: Option<&str>, remote: &str) -> (r: Option<String>)
    ensures
        match r {
            Some(b) => target is Some && strip_prefix(target->0@, remote@ + seq!['/']) == Some(
                b@,
            ),
            None => target is None || strip_prefix(target->0@, remote@ + seq!['/']) is None,
        },
{
    match target {
        Some(t) => {
            let prefix = concat(&chars_of(remote), &['/']);
            assert(seq!['/'] =~= ['/']@);
            match strip_prefix_in(&chars_of(t), &prefix) {
                Some(b) => Some(string_of(&b)),
                None => None,
            }
        },
        None => None,
    }
}

/// The refs that may be the remote's main line, in the order to try them: its
/// recorded default branch, then `main`, then `master`.
pub open spec fn trunk_candidates_of(default: Option<Seq<char>>, remote: Seq<char>) -> Seq<
    Seq<char>,
> {
    let under = |n: Seq<char>| "refs/remotes/"@ + remote + seq!['/'] + n;
    let rest = seq![under("main"@), under("master"@)];
    match default {
        Some(d) => seq![under(d)] + rest,
        None => rest,
    }
}

fn remote_ref(remote: &[char], n: &[char]) -> (r: String)
    ensures
        r@ == "refs/remotes/"@ + remote@ + seq!['/'] + n@,
{
    let a = concat(&chars_of("refs/remotes/"), remote);
    let b = concat(&a, &['/']);
    assert(['/']@ =~= seq!['/']);
    string_of(&concat(&b, n))
}

/// The refs `trunk` tries, in order; the first one this clone has is the
/// remote's main line.
pub fn trunk_candidates(default: Option<&str>, remote: &str) -> (v: Vec<String>)
    ensures
        string_views(v@) == trunk_candidates_of(
            match default {
                Some(d) => Some(d@),
                None => None,
            },
            remote@,
        ),
{
    let r = chars_of(remote);
    let mut v: Vec<String> = Vec::new();
    if let Some(d) = default {
        v.push(remote_ref(&r, &chars_of(d)));
    }
    v.push(remote_ref(&r, &chars_of("main")));
    v.push(remote_ref(&r, &chars_of("master")));
    assert(string_views(v@) =~= trunk_candidates_of(
        match default {
            Some(d) => Some(d@),
            None => None,
        },
        remote@,
    ));
    v
}

/// A `--name-status` line is its tab-separated fields: the status first,
/// then the path, or for a rename or copy the old path and then the new one.
pub open spec fn name_status_fields(fields: Seq<Seq<char>>) -> bool {
    &&& fields.len() >= 2
    &&& fields[0].len() > 0
    &&& forall|k: int| 0 <= k < fields.len() ==> !(#[trigger] fields[k]).contains('\t')
}

/// A file is listed under the last field of its line, the path it has at the
/// commit: for `R100<TAB>old<TAB>new` that is `new`, never the old name; its
/// status is the first letter of the first field.
pub proof fn lemma_file_is_listed_by_its_last_field(fields: Seq<Seq<char>>)
    requires
        name_status_fields(fields),
    ensures
        file_of(crate::text::join(fields, seq!['\t'])) == Some((fields[0][0], fields[fields.len() - 1])),
{
    crate::text::lemma_split_join_char(fields, '\t');
    crate::text::lemma_join_front(fields, seq!['\t']);
}

/// Every line of a `--name-status` listing gives one file, in order, listed
/// under its line's last field with its first field's first letter.
pub proof fn lemma_files_by_last_field(listing: Seq<char>, fields: Seq<Seq<Seq<char>>>)
    requires
        lines(listing).len() == fields.len(),
        forall|i: int|
            0 <= i < fields.len() ==> name_status_fields(#[trigger] fields[i]) && lines(listing)[i]
                == crate::text::join(fields[i], seq!['\t']),
    ensures
        files_of(lines(listing)).len() == fields.len(),
        forall|i: int|
            0 <= i < fields.len() ==> #[trigger] files_of(lines(listing))[i] == (
                fields[i][0][0],
                fields[i][fields[i].len() - 1],
            ),
{
    lemma_files_by_last_field_of(lines(listing), fields);
}

proof fn lemma_files_by_last_field_of(ls: Seq<Seq<char>>, fields: Seq<Seq<Seq<char>>>)
    requires
        ls.len() == fields.len(),
        forall|i: int|
            0 <= i < fields.len() ==> name_status_fields(#[trigger] fields[i]) && ls[i] == crate::text::join(
                fields[i],
                seq!['\t'],
            ),
    ensures
        files_of(ls).len() == fields.len(),
        forall|i: int|
            0 <= i < fields.len() ==> #[trigger] files_of(ls)[i] == (fields[i][0][0], fields[i][fields[i].len() - 1]),
    decreases ls.len(),
{
    if ls.len() > 0 {
        let n = ls.len() - 1;
        lemma_files_by_last_field_of(ls.drop_last(), fields.drop_last());
        assert(name_status_fields(fields[n]));
        lemma_file_is_listed_by_its_last_field(fields[n]);
        let prev = files_of(ls.drop_last());
        assert forall|i: int| 0 <= i < fields.len() implies #[trigger] files_of(ls)[i] == (
            fields[i][0][0],
            fields[i][fields[i].len() - 1],
        ) by {
            if i < n {
                assert(fields.drop_last()[i] == fields[i]);
                assert(files_of(ls)[i] == prev[i]);
            }
        }
    }
}

} // verus!
