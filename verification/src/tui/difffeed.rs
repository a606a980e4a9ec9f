//! Which diff a pane is waiting for. `git diff` on a big file plus the
//! highlighting pass is long enough to stall a held `j`, so diffs are prepared
//! off the input path; the program runs the worker and carries the answers
//! back, and this says which answer is still wanted.

use crate::tui::sat_sub;
use vstd::prelude::*;

verus! {

/// How many milliseconds a diff may take before a pane admits it is loading.
/// A wait nobody notices says nothing, or the word blinks on every keypress in
/// a small repo.
pub const SLOW_MS: u64 = 120;

/// The last of `answers` that carries `seq`, or none when none does.
pub open spec fn last_wanted<T>(answers: Seq<(u64, T)>, seq: u64) -> Option<T>
    decreases answers.len(),
{
    if answers.len() == 0 {
        None
    } else if answers.last().0 == seq {
        Some(answers.last().1)
    } else {
        last_wanted(answers.drop_last(), seq)
    }
}

/// The newest diff asked for, and whether it is still coming. Times are
/// readings of one monotonic clock, in milliseconds.
pub struct DiffFeed {
    /// The newest request. An answer carrying anything else belongs to a row
    /// the cursor has already left.
    pub seq: u64,
    pub loading: bool,
    pub since: Option<u64>,
}

impl Default for DiffFeed {
    fn default() -> (f: DiffFeed)
        ensures
            f.seq == 0,
            !f.loading,
            f.since is None,
    {
        DiffFeed { seq: 0, loading: false, since: None }
    }
}

impl DiffFeed {
    /// Ask for a diff at `now`: the number its answer will carry.
    pub fn request(&mut self, now: u64) -> (seq: u64)
        requires
            old(self).seq < u64::MAX,
        ensures
            seq == old(self).seq + 1,
            final(self).seq == seq,
            final(self).loading,
            final(self).since == Some(now),
    {
        self.seq = self.seq + 1;
        self.loading = true;
        self.since = Some(now);
        self.seq
    }

    /// Nothing is coming: the cursor is on a row with no diff to show.
    pub fn idle(&mut self)
        requires
            old(self).seq < u64::MAX,
        ensures
            final(self).seq == old(self).seq + 1,
            !final(self).loading,
            final(self).since is None,
    {
        self.seq = self.seq + 1;
        self.loading = false;
        self.since = None;
    }

    /// An answer carrying `seq` has arrived: whether it is the one wanted,
    /// in which case the pane stops waiting.
    pub fn take(&mut self, seq: u64) -> (wanted: bool)
        ensures
            wanted == (seq == old(self).seq),
            final(self).seq == old(self).seq,
            final(self).since == old(self).since,
            final(self).loading == (old(self).loading && !wanted),
    {
        if seq == self.seq {
            self.loading = false;
            true
        } else {
            false
        }
    }

    /// Every answer that has arrived, in the order it came: the last one
    /// that carries the newest number is the diff to show, and the pane stops
    /// waiting once there is one; the others belong to rows already left.
    pub fn take_all<T>(&mut self, answers: Vec<(u64, T)>) -> (r: Option<T>)
        ensures
            r == last_wanted(answers@, old(self).seq),
            final(self).seq == old(self).seq,
            final(self).since == old(self).since,
            final(self).loading == (old(self).loading && r is None),
    {
        let ghost all = answers@;
        let mut answers = answers;
        let mut found: Option<T> = None;
        while answers.len() > 0
            invariant
                answers@ == all.take(answers@.len() as int),
                answers@.len() <= all.len(),
                self.seq == old(self).seq,
                self.since == old(self).since,
                self.loading == (old(self).loading && found is None),
                match found {
                    Some(x) => last_wanted(all, self.seq) == Some(x),
                    None => last_wanted(all, self.seq) == last_wanted(answers@, self.seq),
                },
            decreases answers@.len(),
        {
            let ghost before = answers@;
            let (s, t) = answers.pop().unwrap();
            assert(before.drop_last() =~= answers@);
            assert(answers@ =~= all.take(answers@.len() as int));
            if found.is_none() {
                if self.take(s) {
                    found = Some(t);
                }
            }
        }
        found
    }

    pub fn loading(&self) -> (b: bool)
        ensures
            b == self.loading,
    {
        self.loading
    }

    /// Whether the wait at `now` has gone on long enough to say so.
    pub fn slow(&self, now: u64) -> (b: bool)
        ensures
            b == (self.loading && match self.since {
                Some(t) => sat_sub(now as int, t as int) >= SLOW_MS,
                None => false,
            }),
    {
        self.loading && match self.since {
            Some(t) => now.saturating_sub(t) >= SLOW_MS,
            None => false,
        }
    }
}

/// A row with no diff stops the waiting for good: once `idle` has run,
/// nothing is loading, so nothing is slow, and no answer to a request made
/// before it is wanted again, since every one of them carries an older number.
pub proof fn lemma_idle_drops_earlier(before: DiffFeed, after: DiffFeed, earlier: u64)
    requires
        after.seq == before.seq + 1,
        !after.loading,
        after.since is None,
        earlier <= before.seq,
    ensures
        !after.loading,
        after.since is None,
        earlier != after.seq,
{
}

} // verus!
