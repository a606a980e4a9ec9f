//! `slu branches` - local branches already merged into the checked-out one
//! (`git branch --merged`), safe to delete, across every repo under a path.
//! What is decided here: which names git's listing leaves, the one-liner that
//! deletes them, and the closing line `slu tidy` shares.

use crate::git::{trimmed_lines, trimmed_lines_of};
use crate::num::{decimal, decimal_of};
use crate::text::{chars_of, concat, join, join_in, same, seqs, string_of, string_views};
use vstd::prelude::*;

verus! {

/// The branches `git branch --format=%(refname:short) --merged` lists, but
/// the checked-out one, `current`.
pub open spec fn merged_of(out: Seq<char>, current: Seq<char>) -> Seq<Seq<char>> {
    trimmed_lines_of(out).filter(|b: Seq<char>| b != current)
}

pub fn merged_names(out: &str, current: &str) -> (r: Vec<String>)
    ensures
        string_views(r@) == merged_of(out@, current@),
{
    let all = trimmed_lines(out);
    let ghost av = string_views(all@);
    let cur = chars_of(current);
    let mut r: Vec<String> = Vec::new();
    let mut k: usize = 0;
    while k < all.len()
        invariant
            k <= all@.len(),
            av == string_views(all@),
            cur@ == current@,
            string_views(r@) == av.take(k as int).filter(|b: Seq<char>| b != current@),
        decreases all@.len() - k,
    {
        reveal_with_fuel(Seq::<_>::filter, 1);
        assert(av.take(k + 1).drop_last() =~= av.take(k as int));
        assert(av[k as int] == all@[k as int]@);
        if !same(&chars_of(all[k].as_str()), &cur) {
            let ghost before = string_views(r@);
            r.push(all[k].clone());
            assert(string_views(r@) =~= before.push(all@[k as int]@));
        }
        k = k + 1;
    }
    assert(av.take(all@.len() as int) =~= av);
    r
}

/// The one-liner that deletes every branch listed.
pub open spec fn delete_line_of(names: Seq<Seq<char>>) -> Seq<char> {
    "git branch -d "@ + join(names, seq![' '])
}

pub fn delete_line(names: &[String]) -> (s: String)
    ensures
        s@ == delete_line_of(string_views(names@)),
{
    let mut ns: Vec<Vec<char>> = Vec::new();
    let mut k: usize = 0;
    while k < names.len()
        invariant
            k <= names@.len(),
            seqs(ns@) == string_views(names@).take(k as int),
        decreases names@.len() - k,
    {
        let ghost before = seqs(ns@);
        ns.push(chars_of(names[k].as_str()));
        assert(seqs(ns@) =~= before.push(names@[k as int]@));
        assert(string_views(names@).take(k + 1) =~= string_views(names@).take(k as int).push(
            names@[k as int]@,
        ));
        k = k + 1;
    }
    assert(string_views(names@).take(names@.len() as int) =~= string_views(names@));
    let sp = [' '];
    assert(sp@ =~= seq![' ']);
    string_of(&concat(&chars_of("git branch -d "), &join_in(&ns, &sp)))
}

/// The closing line of a listing that found something to delete.
pub open spec fn cleanup_of(branches: nat, repos: nat) -> Seq<char> {
    decimal(branches) + " branch(es) across "@ + decimal(repos) + " repo(s) can be deleted"@
}

pub fn cleanup_line(branches: usize, repos: usize) -> (s: String)
    ensures
        s@ == cleanup_of(branches as nat, repos as nat),
{
    let v = concat(
        &concat(
            &concat(&decimal_of(branches as u64), &chars_of(" branch(es) across ")),
            &decimal_of(repos as u64),
        ),
        &chars_of(" repo(s) can be deleted"),
    );
    string_of(&v)
}

} // verus!
