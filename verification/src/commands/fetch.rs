//! `slu fetch` - fetch, and with `--pull` fast-forward, every repo under a
//! path. A fetch only prunes and never touches the working tree; `--pull`
//! adds `git pull --ff-only`, which fast-forwards when it safely can and
//! refuses rather than merging, so it cannot make a merge commit or a
//! conflict. What is decided here: what each git answer comes to, the order
//! the repos are reported in, and the closing line.

use crate::git::{first_line, first_line_of};
use crate::num::{decimal, decimal_of};
use crate::text::{chars_of, concat, contains, contains_in, string_of, Named};
use vstd::prelude::*;

verus! {

/// How a repo came out.
#[derive(Clone, Copy, PartialEq, Eq, Debug, Structural)]
pub enum State {
    /// Fetched, or pulled.
    Done,
    /// Fetched, with nothing to pull: the branch tracks no upstream.
    Skip,
    Fail,
}

/// A repo's line in the report.
pub struct Outcome {
    pub name: String,
    pub state: State,
    pub note: String,
}

pub open spec fn outcome_view(o: Outcome) -> (Seq<char>, State, Seq<char>) {
    (o.name@, o.state, o.note@)
}

pub open spec fn outcome_views(v: Seq<Outcome>) -> Seq<(Seq<char>, State, Seq<char>)> {
    v.map_values(|o: Outcome| outcome_view(o))
}

/// What `git fetch --all --prune` came to: a failure with git's first line,
/// or, without `pull`, done - `up to date` when it printed nothing, since a
/// fetch is silent when nothing new arrived; `None` when the pull is next.
pub open spec fn fetched_of(ok: bool, out: Seq<char>, pull: bool) -> Option<(State, Seq<char>)> {
    if !ok {
        Some((State::Fail, first_line_of(out)))
    } else if !pull {
        Some(
            (
                State::Done,
                if out.len() == 0 {
                    "up to date"@
                } else {
                    "fetched"@
                },
            ),
        )
    } else {
        None
    }
}

pub fn fetched(name: &str, ok: bool, out: &str, pull: bool) -> (r: Option<Outcome>)
    ensures
        match r {
            Some(o) => o.name@ == name@ && fetched_of(ok, out@, pull) == Some((o.state, o.note@)),
            None => fetched_of(ok, out@, pull) is None,
        },
{
    let nm = string_of(&chars_of(name));
    if !ok {
        return Some(Outcome { name: nm, state: State::Fail, note: first_line(out) });
    }
    if !pull {
        let note = if chars_of(out).len() == 0 {
            "up to date"
        } else {
            "fetched"
        };
        return Some(Outcome { name: nm, state: State::Done, note: note.to_owned() });
    }
    None
}

/// What `git pull --ff-only` came to: fast-forwarded, or already up to date;
/// skipped when the branch tracks nothing, which is no failure, since there
/// is just nothing to pull; else a failure with git's first line.
pub open spec fn pulled_of(ok: bool, out: Seq<char>) -> (State, Seq<char>) {
    if ok {
        (
            State::Done,
            if contains(out, "Already up to date"@) {
                "up to date"@
            } else {
                "fast-forwarded"@
            },
        )
    } else if contains(out, "no tracking information"@) {
        (State::Skip, "fetched, no upstream to pull"@)
    } else {
        (State::Fail, first_line_of(out))
    }
}

pub fn pulled(name: &str, ok: bool, out: &str) -> (o: Outcome)
    ensures
        o.name@ == name@,
        pulled_of(ok, out@) == (o.state, o.note@),
{
    let nm = string_of(&chars_of(name));
    let cs = chars_of(out);
    if ok {
        let note = if contains_in(&cs, &chars_of("Already up to date")) {
            "up to date"
        } else {
            "fast-forwarded"
        };
        return Outcome { name: nm, state: State::Done, note: note.to_owned() };
    }
    if contains_in(&cs, &chars_of("no tracking information")) {
        return Outcome {
            name: nm,
            state: State::Skip,
            note: "fetched, no upstream to pull".to_owned(),
        };
    }
    Outcome { name: nm, state: State::Fail, note: first_line(out) }
}

impl Named for Outcome {
    open spec fn name_of(&self) -> Seq<char> {
        self.name@
    }

    fn name(&self) -> (s: &str) {
        self.name.as_str()
    }
}

/// The closing line: how many repos, and how many of them failed.
pub open spec fn summary_of(repos: nat, failed: nat) -> Seq<char> {
    decimal(repos) + " repos · "@ + decimal(failed) + " failed"@
}

pub fn summary(outcomes: &[Outcome]) -> (r: (String, usize))
    ensures
        r.1 == outcomes@.filter(|o: Outcome| o.state == State::Fail).len(),
        r.0@ == summary_of(outcomes@.len(), r.1 as nat),
{
    let mut failed: usize = 0;
    let mut k: usize = 0;
    while k < outcomes.len()
        invariant
            k <= outcomes@.len(),
            failed == outcomes@.take(k as int).filter(|o: Outcome| o.state == State::Fail).len(),
            failed <= k,
        decreases outcomes@.len() - k,
    {
        reveal_with_fuel(Seq::<_>::filter, 1);
        assert(outcomes@.take(k + 1).drop_last() =~= outcomes@.take(k as int));
        if outcomes[k].state == State::Fail {
            failed = failed + 1;
        }
        k = k + 1;
    }
    assert(outcomes@.take(outcomes@.len() as int) =~= outcomes@);
    let v = concat(
        &concat(
            &concat(&decimal_of(outcomes.len() as u64), &chars_of(" repos · ")),
            &decimal_of(failed as u64),
        ),
        &chars_of(" failed"),
    );
    (string_of(&v), failed)
}

} // verus!
