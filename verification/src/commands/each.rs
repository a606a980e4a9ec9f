//! `slu each <git args>` - run any git command in every repo under the
//! current directory, in parallel, and print the output grouped per repo.
//! What is decided here: the report's order, what a repo's block holds, and
//! the closing line.

use crate::commands::fetch::summary_of;
use crate::num::decimal_of;
use crate::text::{chars_of, concat, lines, lines_in, seqs, string_of, string_views, Named};
use vstd::prelude::*;

verus! {

/// What the command came to in one repo.
pub struct Outcome {
    pub name: String,
    pub ok: bool,
    pub output: String,
}

impl Named for Outcome {
    open spec fn name_of(&self) -> Seq<char> {
        self.name@
    }

    fn name(&self) -> (s: &str) {
        self.name.as_str()
    }
}

/// The lines a repo's block shows, or `None` when the command printed
/// nothing, which the block says in words.
pub fn output_lines(output: &str) -> (r: Option<Vec<String>>)
    ensures
        match r {
            Some(v) => output@.len() > 0 && string_views(v@) == lines(output@),
            None => output@.len() == 0,
        },
{
    let cs = chars_of(output);
    if cs.len() == 0 {
        return None;
    }
    let ls = lines_in(&cs);
    let mut v: Vec<String> = Vec::new();
    let mut k: usize = 0;
    while k < ls.len()
        invariant
            k <= ls@.len(),
            string_views(v@) == seqs(ls@).take(k as int),
        decreases ls@.len() - k,
    {
        let ghost before = string_views(v@);
        v.push(string_of(&ls[k]));
        assert(string_views(v@) =~= before.push(ls@[k as int]@));
        assert(seqs(ls@).take(k + 1) =~= seqs(ls@).take(k as int).push(seqs(ls@)[k as int]));
        k = k + 1;
    }
    assert(seqs(ls@).take(ls@.len() as int) =~= seqs(ls@));
    Some(v)
}

/// The closing line, and how many repos the command failed in.
pub fn summary(outcomes: &[Outcome]) -> (r: (String, usize))
    ensures
        r.1 == outcomes@.filter(|o: Outcome| !o.ok).len(),
        r.0@ == summary_of(outcomes@.len(), r.1 as nat),
{
    let mut failed: usize = 0;
    let mut k: usize = 0;
    while k < outcomes.len()
        invariant
            k <= outcomes@.len(),
            failed == outcomes@.take(k as int).filter(|o: Outcome| !o.ok).len(),
            failed <= k,
        decreases outcomes@.len() - k,
    {
        reveal_with_fuel(Seq::<_>::filter, 1);
        assert(outcomes@.take(k + 1).drop_last() =~= outcomes@.take(k as int));
        if !outcomes[k].ok {
            failed = failed + 1;
        }
        k = k + 1;
    }
    assert(outcomes@.take(outcomes@.len() as int) =~= outcomes@);
    let v = concat(
        &concat(
            &concat(&decimal_of(outcomes.len() as u64), &chars_of(" repos · ")),
            &decimal_of(failed as u64),
        ),
        &chars_of(" failed"),
    );
    (string_of(&v), failed)
}

} // verus!
