//! The drill: repos → branches → commits → files → diff.
//!
//! One app with one level stack, entered at whichever level the command asked
//! for. `slu irepos` starts at Repos, `slu ibranch` at Branches, `slu ilog` at
//! Commits; Esc walks back up and quits at the level it was entered on. `slu
//! itag` starts at Tags, which stands where Branches would: a tag's commits
//! step back to it.
//!
//! Every screen is two panes: the current level's list on top, the level below
//! it underneath, so the bottom pane always previews where Enter goes. Plain
//! keys drive the top pane, Ctrl drives the bottom one. What here decides the
//! drill's moves: the levels, a list's selection, and which background answer
//! a pane still wants.

pub mod branches;
pub mod commits;
pub mod delete;
pub mod diff;
pub mod inspect;
pub mod keys;
pub mod repos;
pub mod rows;
pub mod stashes;
pub mod tags;
pub mod ui;

use crate::tui::input::stepped;
use crate::tui::{min, sat_sub};
use vstd::prelude::*;

verus! {

/// Which list the top pane is showing. The bottom pane shows the next one down.
#[derive(Clone, Copy, PartialEq, Eq, PartialOrd, Ord, Debug, Structural)]
pub enum Level {
    Repos,
    Branches,
    Tags,
    Commits,
    Diff,
}

/// How deep a level sits in the drill, in the order the variants are
/// declared: the order `<` on levels follows.
pub open spec fn depth(l: Level) -> int {
    match l {
        Level::Repos => 0,
        Level::Branches => 1,
        Level::Tags => 2,
        Level::Commits => 3,
        Level::Diff => 4,
    }
}

/// The level Esc steps back to from `l`, in an app entered at `start`.
pub open spec fn back_of(l: Level, start: Level) -> Option<Level> {
    match l {
        Level::Repos | Level::Tags => None,
        Level::Branches => Some(Level::Repos),
        Level::Commits => if start == Level::Tags {
            Some(Level::Tags)
        } else {
            Some(Level::Branches)
        },
        Level::Diff => Some(Level::Commits),
    }
}

impl Level {
    /// How deep this level sits: the drill's order, which is the order of the
    /// variants.
    pub fn depth(self) -> (d: u8)
        ensures
            d == depth(self),
    {
        match self {
            Level::Repos => 0,
            Level::Branches => 1,
            Level::Tags => 2,
            Level::Commits => 3,
            Level::Diff => 4,
        }
    }

    /// The level Esc steps back to from here, in an app entered at `start`, or
    /// None at the top of the stack. Only `itag` enters at Tags, and nothing
    /// sits above them.
    pub fn back(self, start: Level) -> (r: Option<Level>)
        ensures
            r == back_of(self, start),
    {
        match self {
            Level::Repos | Level::Tags => None,
            Level::Branches => Some(Level::Repos),
            Level::Commits => if start == Level::Tags {
                Some(Level::Tags)
            } else {
                Some(Level::Branches)
            },
            Level::Diff => Some(Level::Commits),
        }
    }
}

/// Esc in an app standing at `level`, entered at `start`: the level to step
/// back to, or None to quit. It steps back only while the level is deeper
/// than the one the app was entered at.
pub fn esc(level: Level, start: Level) -> (r: Option<Level>)
    ensures
        r == if depth(level) > depth(start) {
            back_of(level, start)
        } else {
            None
        },
{
    match level.back(start) {
        Some(prev) => if level.depth() > start.depth() {
            Some(prev)
        } else {
            None
        },
        None => None,
    }
}

/// Esc goes up the drill one level at a time, never below where the app was
/// entered, and quits exactly where it came in.
pub proof fn lemma_esc_climbs(level: Level, start: Level)
    ensures
        back_of(level, start) matches Some(up) ==> depth(up) < depth(level),
        level == start ==> (if depth(level) > depth(start) {
            back_of(level, start)
        } else {
            None
        }) is None,
{
}

/// A selection over one list: which of its entries the current scope keeps,
/// where the cursor sits in that subset, and which row the list widget
/// highlights.
pub struct Sel {
    /// Indices into the owning Vec, in display order.
    pub visible: Vec<usize>,
    pub cur: usize,
    /// The row the list widget shows as selected: none while the list is empty.
    pub selected: Option<usize>,
    /// Index into the level's scope slider, moved with h/l.
    pub scope: usize,
    /// What the cursor was on when `r` was pressed, named rather than numbered:
    /// a refresh exists because the list may have changed underneath, so the
    /// row that was selected can come back at a different position, or not at
    /// all - in which case the cursor simply stays at the top.
    pub restore: Option<String>,
}

impl Sel {
    /// The cursor is on a row of the list, and the widget highlights that row;
    /// an empty list has the cursor at the top and nothing highlighted.
    pub open spec fn wf(&self) -> bool {
        &&& self.visible@.len() == 0 ==> self.cur == 0 && self.selected is None
        &&& self.visible@.len() > 0 ==> self.cur < self.visible@.len() && self.selected == Some(
            self.cur,
        )
    }

    /// A fresh selection parked on a level's default scope. Every level starts
    /// on its own stop, whichever level the app was entered at.
    pub fn scoped(scope: usize) -> (s: Sel)
        ensures
            s.wf(),
            s.visible@.len() == 0,
            s.scope == scope,
            s.restore is None,
    {
        Sel { visible: Vec::new(), cur: 0, selected: None, scope, restore: None }
    }

    /// Show these entries, cursor back at the top.
    pub fn show(&mut self, visible: Vec<usize>)
        ensures
            final(self).wf(),
            final(self).visible@ == visible@,
            final(self).cur == 0,
            final(self).scope == old(self).scope,
            final(self).restore == old(self).restore,
    {
        self.visible = visible;
        self.cur = 0;
        self.selected = if self.visible.len() > 0 {
            Some(0)
        } else {
            None
        };
    }

    pub fn len(&self) -> (n: usize)
        ensures
            n == self.visible@.len(),
    {
        self.visible.len()
    }

    pub fn is_empty(&self) -> (b: bool)
        ensures
            b == (self.visible@.len() == 0),
    {
        self.visible.len() == 0
    }

    /// Index into the owning Vec of whatever the cursor is on.
    pub fn idx(&self) -> (r: Option<usize>)
        ensures
            r == if self.cur < self.visible@.len() {
                Some(self.visible@[self.cur as int])
            } else {
                None
            },
    {
        if self.cur < self.visible.len() {
            Some(self.visible[self.cur])
        } else {
            None
        }
    }

    /// Put the cursor on the row a refresh was standing on, now that it has
    /// turned up among the rows that arrived.
    pub fn restored_at(&mut self, at: usize)
        ensures
            final(self).cur == at,
            final(self).selected == Some(at),
            final(self).restore is None,
            final(self).visible@ == old(self).visible@,
            final(self).scope == old(self).scope,
            at < old(self).visible@.len() ==> final(self).wf(),
    {
        self.cur = at;
        self.selected = Some(at);
        self.restore = None;
    }

    /// Add entries a background load produced. The cursor stays where the user
    /// put it: rows landing under it must never move the selection, which is
    /// the whole point of loading them in the background.
    pub fn append(&mut self, more: Vec<usize>)
        ensures
            final(self).visible@ == old(self).visible@ + more@,
            old(self).visible@.len() > 0 ==> final(self).cur == old(self).cur
                && final(self).selected == old(self).selected,
            old(self).visible@.len() == 0 && more@.len() > 0 ==> final(self).cur == 0
                && final(self).selected == Some(0usize),
            old(self).visible@.len() == 0 && more@.len() == 0 ==> final(self).cur == old(
                self,
            ).cur && final(self).selected == old(self).selected,
            final(self).scope == old(self).scope,
            final(self).restore == old(self).restore,
            old(self).wf() ==> final(self).wf(),
    {
        let was_empty = self.visible.len() == 0;
        let mut more = more;
        self.visible.append(&mut more);
        if was_empty && self.visible.len() > 0 {
            self.cur = 0;
            self.selected = Some(0);
        }
    }

    /// Move the cursor `rows` at a time, stopping at either end. Returns
    /// whether it actually moved, so the caller reloads only when it did.
    pub fn step(&mut self, down: bool, rows: usize) -> (moved: bool)
        ensures
            final(self).visible@ == old(self).visible@,
            final(self).scope == old(self).scope,
            final(self).restore == old(self).restore,
            old(self).visible@.len() == 0 ==> !moved && final(self).cur == old(self).cur
                && final(self).selected == old(self).selected,
            old(self).visible@.len() > 0 ==> {
                let to = if down {
                    min(old(self).cur + rows, old(self).visible@.len() - 1)
                } else {
                    sat_sub(old(self).cur as int, rows as int)
                };
                &&& moved == (to != old(self).cur)
                &&& final(self).cur == to
                &&& moved ==> final(self).selected == Some(to as usize)
                &&& !moved ==> final(self).selected == old(self).selected
            },
            old(self).wf() ==> final(self).wf(),
    {
        if self.visible.len() == 0 {
            return false;
        }
        let to = stepped(self.cur, self.visible.len(), down, rows);
        if to == self.cur {
            return false;
        }
        self.cur = to;
        self.selected = Some(to);
        true
    }

    /// Slide the scope one notch within `len` stops, returning whether it
    /// moved.
    pub fn slide(&mut self, right: bool, len: usize) -> (moved: bool)
        ensures
            moved == if right {
                old(self).scope + 1 < len
            } else {
                old(self).scope > 0
            },
            final(self).scope == if !moved {
                old(self).scope as int
            } else if right {
                old(self).scope + 1
            } else {
                old(self).scope - 1
            },
            final(self).visible@ == old(self).visible@,
            final(self).cur == old(self).cur,
            final(self).selected == old(self).selected,
            final(self).restore == old(self).restore,
    {
        if right && len > 0 && self.scope < len - 1 {
            self.scope = self.scope + 1;
            true
        } else if !right && self.scope > 0 {
            self.scope = self.scope - 1;
            true
        } else {
            false
        }
    }
}

impl Default for Sel {
    fn default() -> (s: Sel)
        ensures
            s.wf(),
            s.visible@.len() == 0,
            s.scope == 0,
            s.restore is None,
    {
        Sel::scoped(0)
    }
}

/// How many milliseconds a pane may be empty before it says it is still
/// loading. A load quick enough not to be noticed says nothing at all: a word
/// that appears and vanishes on every keypress is more noise than the blank it
/// replaced.
pub const SLOW_MS: u64 = 120;

/// One pane's background load: the newest request number, which the program
/// shares with the worker so a superseded one stops itself, and what the pane
/// on screen is currently showing. Times are readings of one monotonic clock,
/// in milliseconds.
pub struct Feed {
    /// The newest request issued.
    pub latest: u64,
    /// The request whose rows the pane holds; a batch from any other is stale.
    pub shown: u64,
    /// Rows are still coming, so the frame timer stays on and the pane says so.
    pub loading: bool,
    /// When the request went out, which is what `slow` measures against.
    pub since: Option<u64>,
}

impl Default for Feed {
    fn default() -> (f: Feed)
        ensures
            f.latest == 0,
            f.shown == 0,
            !f.loading,
            f.since is None,
    {
        Feed { latest: 0, shown: 0, loading: false, since: None }
    }
}

impl Feed {
    /// Claim the next request number at `now`, superseding whatever was in
    /// flight.
    pub fn issue(&mut self, now: u64) -> (seq: u64)
        requires
            old(self).latest < u64::MAX,
        ensures
            seq == old(self).latest + 1,
            final(self).latest == seq,
            final(self).shown == seq,
            final(self).loading,
            final(self).since == Some(now),
    {
        self.latest = self.latest + 1;
        self.shown = self.latest;
        self.loading = true;
        self.since = Some(now);
        self.latest
    }

    /// Has this load been going long enough at `now` to be worth mentioning?
    /// Only then does an empty pane say so, which is what keeps a fast repo
    /// silent.
    pub fn slow(&self, now: u64) -> (b: bool)
        ensures
            b == (self.loading && match self.since {
                Some(t) => sat_sub(now as int, t as int) >= SLOW_MS,
                None => false,
            }),
    {
        self.loading && match self.since {
            Some(t) => now.saturating_sub(t) >= SLOW_MS,
            None => false,
        }
    }

    /// Whether a batch belongs to the request the pane is showing.
    pub fn accepts(&self, seq: u64) -> (b: bool)
        ensures
            b == (seq == self.shown),
    {
        seq == self.shown
    }
}

/// Which of a level's two lists a filter key opens: `/` the one plain keys
/// drive, `?` the pane below it. Naming them by position rather than by list
/// keeps one pair of keys meaning the same thing at every level.
#[derive(Clone, Copy, PartialEq, Eq, Debug, Structural)]
pub enum Pane {
    Top,
    Bottom,
}

impl Pane {
    /// The key that opens this pane's filter, which is also how the filter is
    /// written on its title: a query typed with `?` reading back as `/` is the
    /// pane telling you it went somewhere else.
    pub fn sigil(self) -> (c: char)
        ensures
            c == match self {
                Pane::Top => '/',
                Pane::Bottom => '?',
            },
    {
        match self {
            Pane::Top => '/',
            Pane::Bottom => '?',
        }
    }
}

/// Starting tab for `slu ibranch`'s `-g`/`-r`. The branch slider has no stop
/// for finished branches, so `-g` starts on the default one.
pub fn branch_scope(gone: bool, remotes: bool) -> (r: usize)
    ensures
        r < branches::SCOPE_COUNT,
        r == if gone {
            branches::DEFAULT_SCOPE
        } else if remotes {
            2
        } else {
            0
        },
        !gone && remotes ==> branches::scope_at(r) == branches::Scope::Remote,
        !gone && !remotes ==> branches::scope_at(r) == branches::Scope::Local,
{
    if gone {
        branches::DEFAULT_SCOPE
    } else if remotes {
        2
    } else {
        0
    }
}

/// Starting stop on the repo scope slider for `slu irepos --dirty`.
pub fn repo_scope(dirty: bool) -> (r: usize)
    ensures
        r < repos::SCOPE_COUNT,
        repos::scope_at(r) == if dirty {
            repos::Scope::Dirty
        } else {
            repos::Scope::All
        },
{
    if dirty {
        1
    } else {
        0
    }
}

} // verus!
