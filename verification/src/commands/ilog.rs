//! `slu ilog` - the interactive log explorer: the commits level of the drill,
//! entered directly. What it decides on its own is how the paths typed on its
//! command line are read.

use crate::text::{
    chars_of, concat, join, join_in, same, seqs, split, split_in, string_of, string_views,
};
use vstd::prelude::*;

verus! {

/// `Path::is_absolute`: whether a path is independent of the current
/// directory, which on Unix is starting with `/`. A function of the path's
/// text alone, on a given platform.
pub uninterp spec fn path_is_absolute(path: Seq<char>) -> bool;

/// `Path::is_absolute`. Its answer is the named `path_is_absolute` of the
/// path; what makes a path absolute on each platform is std's and is not
/// restated.
#[verifier::external_body]
fn is_absolute(path: &str) -> (b: bool)
    ensures
        b == path_is_absolute(path@),
{
    std::path::Path::new(path).is_absolute()
}

/// The segments of a path once `.` and empty ones are dropped and each `..`
/// takes back the one before it (at the top there is none to take back).
pub open spec fn fold_segments(segs: Seq<Seq<char>>) -> Seq<Seq<char>>
    decreases segs.len(),
{
    if segs.len() == 0 {
        seq![]
    } else {
        let acc = fold_segments(segs.drop_last());
        let s = segs.last();
        if s.len() == 0 || s == seq!['.'] {
            acc
        } else if s == seq!['.', '.'] {
            if acc.len() > 0 {
                acc.drop_last()
            } else {
                acc
            }
        } else {
            acc.push(s)
        }
    }
}

/// A user-typed path made relative to the repo root: `prefix` is the cwd's
/// path below the root (`PROD/`, empty at the root). Absolute paths are left
/// alone, as is everything at the root; otherwise `.` and `..` fold lexically.
pub open spec fn rebased(path: Seq<char>, prefix: Seq<char>) -> Seq<char> {
    rebased_from(path_is_absolute(path), path, prefix)
}

/// The same, given whether `Path::is_absolute` holds of the path.
pub open spec fn rebased_from(absolute: bool, path: Seq<char>, prefix: Seq<char>) -> Seq<char> {
    if prefix.len() == 0 || absolute {
        path
    } else {
        join(fold_segments(split(prefix + path, seq!['/'])), seq!['/'])
    }
}

/// Rewrite a user-typed path so it is relative to the repo root. `prefix` is
/// `git rev-parse --show-prefix` (the cwd's path below the root, e.g. `PROD/`,
/// empty at the root). Absolute paths are left alone - git resolves those
/// itself. `.` and `..` segments are folded lexically so `../x` from `PROD/`
/// becomes `x`, not `PROD/../x`.
pub fn rebase_path(path: &str, prefix: &str) -> (r: String)
    ensures
        r@ == rebased(path@, prefix@),
{
    rebase_path_from(is_absolute(path), path, prefix)
}

/// `rebase_path`, given what `Path::is_absolute` says of `path`.
pub fn rebase_path_from(absolute: bool, path: &str, prefix: &str) -> (r: String)
    ensures
        r@ == rebased_from(absolute, path@, prefix@),
{
    if prefix.is_empty() || absolute {
        return string_of(&chars_of(path));
    }
    let joined = concat(&chars_of(prefix), &chars_of(path));
    let slash = ['/'];
    assert(slash@ =~= seq!['/']);
    let segs = split_in(&joined, &slash);
    let ghost all = seqs(segs@);
    let dot = ['.'];
    let dotdot = ['.', '.'];
    assert(dot@ =~= seq!['.']);
    assert(dotdot@ =~= seq!['.', '.']);
    let mut parts: Vec<Vec<char>> = Vec::new();
    let mut k: usize = 0;
    while k < segs.len()
        invariant
            k <= segs@.len(),
            all == seqs(segs@),
            dot@ == seq!['.'],
            dotdot@ == seq!['.', '.'],
            seqs(parts@) == fold_segments(all.take(k as int)),
        decreases segs@.len() - k,
    {
        assert(all.take(k + 1).drop_last() =~= all.take(k as int));
        assert(all.take(k + 1).last() == segs@[k as int]@);
        let seg = &segs[k];
        if seg.len() == 0 || same(seg, &dot) {
        } else if same(seg, &dotdot) {
            if parts.len() > 0 {
                let ghost before = seqs(parts@);
                parts.pop();
                assert(seqs(parts@) =~= before.drop_last());
            }
        } else {
            let ghost before = seqs(parts@);
            parts.push(slice_all(seg));
            assert(seqs(parts@) =~= before.push(seg@));
        }
        k = k + 1;
    }
    assert(all.take(segs@.len() as int) =~= all);
    string_of(&join_in(&parts, &slash))
}

fn slice_all(s: &Vec<char>) -> (v: Vec<char>)
    ensures
        v@ == s@,
{
    let v = crate::text::slice_vec(s, 0, s.len());
    assert(v@ =~= s@);
    v
}

/// What `git log` is handed under `ilog`: `--all` when asked, then `--` and
/// the paths when the log is filtered to them.
pub open spec fn log_words(all: bool, paths: Seq<Seq<char>>) -> Seq<Seq<char>> {
    (if all {
        seq!["--all"@]
    } else {
        seq![]
    }) + if paths.len() > 0 {
        seq!["--"@] + paths
    } else {
        seq![]
    }
}

pub fn log_args(all: bool, paths: &[String]) -> (r: Vec<String>)
    ensures
        string_views(r@) == log_words(all, string_views(paths@)),
{
    let mut r: Vec<String> = Vec::new();
    if all {
        r.push("--all".to_owned());
    }
    let ghost head = string_views(r@);
    if paths.len() > 0 {
        r.push("--".to_owned());
        let ghost mid = string_views(r@);
        let mut k: usize = 0;
        while k < paths.len()
            invariant
                k <= paths@.len(),
                string_views(r@) == mid + string_views(paths@).take(k as int),
            decreases paths@.len() - k,
        {
            let ghost before = string_views(r@);
            r.push(paths[k].clone());
            assert(string_views(r@) =~= before.push(paths@[k as int]@));
            assert(string_views(paths@).take(k + 1) =~= string_views(paths@).take(k as int).push(
                paths@[k as int]@,
            ));
            k = k + 1;
        }
        assert(string_views(paths@).take(paths@.len() as int) =~= string_views(paths@));
    }
    assert(string_views(r@) =~= log_words(all, string_views(paths@)));
    r
}

/// A segment a folded path may hold: a real name, with no `/` in it.
pub open spec fn real_segment(x: Seq<char>) -> bool {
    x.len() > 0 && x != seq!['.'] && x != seq!['.', '.'] && !x.contains('/')
}

proof fn lemma_fold_real(segs: Seq<Seq<char>>)
    requires
        forall|k: int| 0 <= k < segs.len() ==> !(#[trigger] segs[k]).contains('/'),
    ensures
        forall|k: int| 0 <= k < fold_segments(segs).len() ==> real_segment(#[trigger] fold_segments(segs)[k]),
    decreases segs.len(),
{
    if segs.len() > 0 {
        let d = segs.drop_last();
        assert forall|k: int| 0 <= k < d.len() implies !(#[trigger] d[k]).contains('/') by {
            assert(d[k] == segs[k]);
        }
        lemma_fold_real(d);
        let acc = fold_segments(d);
        let x = segs.last();
        assert(!segs[segs.len() - 1].contains('/'));
        if x.len() == 0 || x == seq!['.'] {
        } else if x == seq!['.', '.'] {
            if acc.len() > 0 {
                assert forall|k: int| 0 <= k < acc.drop_last().len() implies real_segment(#[trigger] acc.drop_last()[k]) by {
                    assert(acc.drop_last()[k] == acc[k]);
                }
            }
        } else {
            assert forall|k: int| 0 <= k < acc.push(x).len() implies real_segment(#[trigger] acc.push(x)[k]) by {
                if k < acc.len() {
                    assert(acc.push(x)[k] == acc[k]);
                }
            }
        }
    }
}

/// Where a prefix and a relative path are folded, what `rebase_path` gives
/// names no `.`, `..` or empty segment: split on `/` it is the folded
/// segments, every one a real name, unless nothing is left and it is empty.
/// Where the prefix is empty or the path absolute, the path comes back as it
/// was.
pub proof fn lemma_rebased_segments(absolute: bool, path: Seq<char>, prefix: Seq<char>)
    ensures
        prefix.len() == 0 || absolute ==> rebased_from(absolute, path, prefix) == path,
        prefix.len() > 0 && !absolute ==> ({
            let r = rebased_from(absolute, path, prefix);
            r.len() == 0 || forall|k: int|
                0 <= k < split(r, seq!['/']).len() ==> real_segment(#[trigger] split(r, seq!['/'])[k])
        }),
{
    if prefix.len() > 0 && !absolute {
        let segs = split(prefix + path, seq!['/']);
        crate::text::lemma_split_char_pieces(prefix + path, '/');
        lemma_fold_real(segs);
        let ps = fold_segments(segs);
        if ps.len() > 0 {
            assert forall|k: int| 0 <= k < ps.len() implies !(#[trigger] ps[k]).contains('/') by {
                assert(real_segment(ps[k]));
            }
            crate::text::lemma_split_join_char(ps, '/');
        }
    }
}

} // verus!
