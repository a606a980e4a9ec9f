//! `slu scan` - scan git repositories for sensitive terms in commit history.
//! Matching is git's pickaxe (`crate::history`), which also catches secrets
//! committed in binary or encrypted files where a plain diff grep would see
//! nothing. What is decided here is how many findings a repo's matches count
//! as, the same granularity `slu iscan` lists.

use crate::history::{commit_views, CommitMatch, CommitV, FileV};
use vstd::prelude::*;

verus! {

/// The findings of one file: one per matched line, or one for a binary or
/// encrypted file pickaxe flagged but showed no visible line of.
pub open spec fn file_hits(f: FileV) -> nat {
    if f.1.len() == 0 {
        1
    } else {
        f.1.len()
    }
}

pub open spec fn files_hits(fs: Seq<FileV>) -> nat
    decreases fs.len(),
{
    if fs.len() == 0 {
        0
    } else {
        files_hits(fs.drop_last()) + file_hits(fs.last())
    }
}

/// The findings across a repo's matching commits.
pub open spec fn hits_of(cs: Seq<CommitV>) -> nat
    decreases cs.len(),
{
    if cs.len() == 0 {
        0
    } else {
        hits_of(cs.drop_last()) + files_hits(cs.last().files)
    }
}

/// Count findings across a repo's commits: one per matched line, or one per
/// binary or encrypted file that pickaxe flagged but showed no lines of.
pub fn count_hits(commits: &[CommitMatch]) -> (n: usize)
    requires
        hits_of(commit_views(commits@)) <= usize::MAX,
    ensures
        n == hits_of(commit_views(commits@)),
{
    let ghost cv = commit_views(commits@);
    let mut n: usize = 0;
    let mut k: usize = 0;
    while k < commits.len()
        invariant
            k <= commits@.len(),
            cv == commit_views(commits@),
            hits_of(cv) <= usize::MAX,
            n == hits_of(cv.take(k as int)),
        decreases commits@.len() - k,
    {
        proof {
            lemma_hits_prefix(cv, k as int + 1);
        }
        assert(cv.take(k + 1).drop_last() =~= cv.take(k as int));
        let c = &commits[k];
        let ghost fv = cv[k as int].files;
        assert(fv == crate::history::file_views(c.files@));
        let mut j: usize = 0;
        let base = n;
        while j < c.files.len()
            invariant
                j <= c.files@.len(),
                fv == crate::history::file_views(c.files@),
                base + files_hits(fv) <= usize::MAX,
                n == base + files_hits(fv.take(j as int)),
            decreases c.files@.len() - j,
        {
            proof {
                lemma_files_prefix(fv, j as int + 1);
            }
            assert(fv.take(j + 1).drop_last() =~= fv.take(j as int));
            let m = c.files[j].lines.len();
            n = n + if m == 0 {
                1
            } else {
                m
            };
            j = j + 1;
        }
        assert(fv.take(c.files@.len() as int) =~= fv);
        k = k + 1;
    }
    assert(cv.take(commits@.len() as int) =~= cv);
    n
}

proof fn lemma_files_prefix(fs: Seq<FileV>, k: int)
    requires
        0 <= k <= fs.len(),
    ensures
        files_hits(fs.take(k)) <= files_hits(fs),
    decreases fs.len() - k,
{
    if k < fs.len() {
        lemma_files_prefix(fs, k + 1);
        assert(fs.take(k + 1).drop_last() =~= fs.take(k));
    } else {
        assert(fs.take(k) =~= fs);
    }
}

proof fn lemma_hits_prefix(cs: Seq<CommitV>, k: int)
    requires
        0 <= k <= cs.len(),
    ensures
        hits_of(cs.take(k)) <= hits_of(cs),
    decreases cs.len() - k,
{
    if k < cs.len() {
        lemma_hits_prefix(cs, k + 1);
        assert(cs.take(k + 1).drop_last() =~= cs.take(k));
    } else {
        assert(cs.take(k) =~= cs);
    }
}

} // verus!
