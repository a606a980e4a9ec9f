//! `slu repos` - at-a-glance working-tree state for every repo under a path:
//! the current branch, how many files are dirty, and how far ahead or behind
//! its upstream it is. What is decided here: which repos a `--dirty` listing
//! keeps, and the closing line.

use crate::git::RepoStatus;
use crate::num::{decimal, decimal_of};
use crate::text::{chars_of, concat, string_of};
use vstd::prelude::*;

verus! {

/// Whether a listing keeps a repo: every one, or under `--dirty` only those
/// with uncommitted, unpushed or unpulled work.
pub open spec fn shows(r: RepoStatus, dirty_only: bool) -> bool {
    !dirty_only || r.dirty > 0 || r.ahead > 0 || r.behind > 0
}

/// The repos the listing keeps, by index, in order.
pub fn shown(statuses: &[RepoStatus], dirty_only: bool) -> (r: Vec<usize>)
    ensures
        r@.len() <= statuses@.len(),
        forall|j: int| 0 <= j < r@.len() ==> r@[j] < statuses@.len() && shows(statuses@[r@[j] as int], dirty_only),
        forall|i: int, j: int| 0 <= i < j < r@.len() ==> r@[i] < r@[j],
        forall|k: int|
            0 <= k < statuses@.len() && shows(#[trigger] statuses@[k], dirty_only) ==> r@.contains(
                k as usize,
            ),
{
    let mut r: Vec<usize> = Vec::new();
    let mut k: usize = 0;
    while k < statuses.len()
        invariant
            k <= statuses@.len(),
            r@.len() <= k,
            forall|j: int| 0 <= j < r@.len() ==> r@[j] < k && shows(statuses@[r@[j] as int], dirty_only),
            forall|i: int, j: int| 0 <= i < j < r@.len() ==> r@[i] < r@[j],
            forall|m: int|
                0 <= m < k && shows(#[trigger] statuses@[m], dirty_only) ==> r@.contains(m as usize),
        decreases statuses@.len() - k,
    {
        if !dirty_only || statuses[k].needs_attention() {
            let ghost before = r@;
            r.push(k);
            assert(r@[r@.len() - 1] == k);
            assert forall|m: int|
                0 <= m < k + 1 && shows(#[trigger] statuses@[m], dirty_only) implies r@.contains(
                m as usize,
            ) by {
                if m < k {
                    let i = choose|i: int| 0 <= i < before.len() && before[i] == m as usize;
                    assert(r@[i] == m as usize);
                } else {
                    assert(r@[r@.len() - 1] == m as usize);
                }
            }
        }
        k = k + 1;
    }
    r
}

/// The closing line: how many repos are listed, how many are dirty, and how
/// many have commits no remote has.
pub open spec fn summary_of(listed: nat, dirty: nat, unpushed: nat) -> Seq<char> {
    decimal(listed) + " repos · "@ + decimal(dirty) + " dirty · "@ + decimal(unpushed)
        + " with unpushed commits"@
}

pub open spec fn count_where(s: Seq<RepoStatus>, shown: Seq<usize>, dirty: bool) -> nat {
    shown.filter(
        |i: usize|
            if dirty {
                s[i as int].dirty > 0
            } else {
                s[i as int].ahead > 0
            },
    ).len()
}

pub fn summary(statuses: &[RepoStatus], shown: &[usize]) -> (s: String)
    requires
        forall|j: int| 0 <= j < shown@.len() ==> shown@[j] < statuses@.len(),
    ensures
        s@ == summary_of(
            shown@.len(),
            count_where(statuses@, shown@, true),
            count_where(statuses@, shown@, false),
        ),
{
    let mut dirty: usize = 0;
    let mut unpushed: usize = 0;
    let mut k: usize = 0;
    while k < shown.len()
        invariant
            k <= shown@.len(),
            forall|j: int| 0 <= j < shown@.len() ==> shown@[j] < statuses@.len(),
            dirty == count_where(statuses@, shown@.take(k as int), true),
            unpushed == count_where(statuses@, shown@.take(k as int), false),
            dirty <= k,
            unpushed <= k,
        decreases shown@.len() - k,
    {
        reveal_with_fuel(Seq::<_>::filter, 1);
        assert(shown@.take(k + 1).drop_last() =~= shown@.take(k as int));
        let r = &statuses[shown[k]];
        if r.dirty > 0 {
            dirty = dirty + 1;
        }
        if r.ahead > 0 {
            unpushed = unpushed + 1;
        }
        k = k + 1;
    }
    assert(shown@.take(shown@.len() as int) =~= shown@);
    let v = concat(
        &concat(
            &concat(
                &concat(&concat(&decimal_of(shown.len() as u64), &chars_of(" repos · ")), &decimal_of(dirty as u64)),
                &chars_of(" dirty · "),
            ),
            &decimal_of(unpushed as u64),
        ),
        &chars_of(" with unpushed commits"),
    );
    string_of(&v)
}

} // verus!
