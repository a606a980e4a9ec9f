//! `slu istatus` - interactive `git status` for the current repo. What is
//! decided here: how the porcelain reads as entries, which entries a tab keeps,
//! what an untracked directory turns into, which side of a file the diff pane
//! compares, and what a key does to the view.

use crate::num::{decimal, decimal_of};
use crate::text::{
    chars_of, concat, ends_with, ends_with_in, owned, owned_pairs, pair_views, same, seqs,
    slice_vec, split, split_in, str_pair_views, str_views, string_of, string_views,
};
use crate::tui::input::{CTRL_X_MOVE, CTRL_Y_MOVE, X_MOVE, Y_MOVE};
use crate::tui::input::{is_down, is_left, is_right, is_up, stepped, Key};
use crate::tui::{clamp_hscroll, min, mul_sat, sat_add16, sat_mul16, sat_sub, scroll_limit};
use vstd::prelude::*;

verus! {

/// Rows a Ctrl-j/k moves the diff, before a held key multiplies them.
pub const SCROLL_STEP: u16 = 3;

/// Columns a Ctrl-h/l pans the diff, before a held key multiplies them.
pub const PAN_STEP: u16 = 8;

/// How many files an untracked directory may contribute before it stays one
/// row. A directory listed as `development/` cannot be read or staged
/// selectively; a `node_modules/` listed file by file is worse.
pub const UNTRACKED_CAP: usize = 25;

/// Which slice of the working tree the file list is showing.
#[derive(Clone, Copy, PartialEq, Eq, Debug, Structural)]
pub enum Scope {
    Staged,
    All,
    Unstaged,
}

/// How many tabs there are.
pub const SCOPE_COUNT: usize = 3;

/// Tab order: the default first, as in every view.
pub open spec fn scope_of(i: usize) -> Scope {
    if i == 0 {
        Scope::All
    } else if i == 1 {
        Scope::Staged
    } else {
        Scope::Unstaged
    }
}

/// The tab at position `i`.
pub fn scope_at(i: usize) -> (s: Scope)
    requires
        i < SCOPE_COUNT,
    ensures
        s == scope_of(i),
{
    if i == 0 {
        Scope::All
    } else if i == 1 {
        Scope::Staged
    } else {
        Scope::Unstaged
    }
}

impl Scope {
    /// The tab's name.
    pub fn label(self) -> (s: &'static str)
        ensures
            s@ == match self {
                Scope::Staged => "staged"@,
                Scope::All => "all"@,
                Scope::Unstaged => "unstaged"@,
            },
    {
        match self {
            Scope::Staged => "staged",
            Scope::All => "all",
            Scope::Unstaged => "unstaged",
        }
    }
}

/// One `git status` entry: index status `x`, worktree status `y`, and the path.
pub struct Entry {
    pub x: char,
    pub y: char,
    pub path: String,
    /// How many files a collapsed untracked directory holds, when it held too
    /// many to list.
    pub hidden: usize,
}

/// An entry as the contracts see it.
pub struct EntryV {
    pub x: char,
    pub y: char,
    pub path: Seq<char>,
    pub hidden: usize,
}

pub open spec fn entry_view(e: Entry) -> EntryV {
    EntryV { x: e.x, y: e.y, path: e.path@, hidden: e.hidden }
}

pub open spec fn entry_views(v: Seq<Entry>) -> Seq<EntryV> {
    v.map_values(|e: Entry| entry_view(e))
}

/// Has staged (index) changes.
pub open spec fn is_staged(e: EntryV) -> bool {
    e.x != ' ' && e.x != '?'
}

/// Has unstaged (worktree) changes, untracked files included.
pub open spec fn is_unstaged(e: EntryV) -> bool {
    e.x == '?' || (e.y != ' ' && e.y != '?')
}

pub open spec fn is_untracked(e: EntryV) -> bool {
    e.x == '?'
}

pub open spec fn keeps(e: EntryV, s: Scope) -> bool {
    match s {
        Scope::Staged => is_staged(e),
        Scope::Unstaged => is_unstaged(e),
        Scope::All => is_staged(e) || is_unstaged(e),
    }
}

/// Whether the diff compares the index against HEAD (rather than the working
/// tree against the index).
pub open spec fn is_cached(e: EntryV, s: Scope) -> bool {
    match s {
        Scope::Staged => true,
        Scope::Unstaged => false,
        Scope::All => !is_unstaged(e),
    }
}

impl Entry {
    /// Has staged (index) changes.
    pub fn staged(&self) -> (b: bool)
        ensures
            b == is_staged(entry_view(*self)),
    {
        self.x != ' ' && self.x != '?'
    }

    /// Has unstaged (worktree) changes, including untracked files.
    pub fn unstaged(&self) -> (b: bool)
        ensures
            b == is_unstaged(entry_view(*self)),
    {
        self.x == '?' || (self.y != ' ' && self.y != '?')
    }

    pub fn untracked(&self) -> (b: bool)
        ensures
            b == is_untracked(entry_view(*self)),
    {
        self.x == '?'
    }

    /// Whether the tab `s` lists this entry.
    pub fn in_scope(&self, s: Scope) -> (b: bool)
        ensures
            b == keeps(entry_view(*self), s),
    {
        match s {
            Scope::Staged => self.staged(),
            Scope::Unstaged => self.unstaged(),
            Scope::All => self.staged() || self.unstaged(),
        }
    }

    /// The same entry, copied.
    pub fn copy(&self) -> (e: Entry)
        ensures
            entry_view(e) == entry_view(*self),
    {
        Entry { x: self.x, y: self.y, path: self.path.clone(), hidden: self.hidden }
    }
}

/// Which pair the diff pane compares: `true` for the index against HEAD,
/// `false` for the working tree against the index.
pub fn cached(e: &Entry, s: Scope) -> (b: bool)
    ensures
        b == is_cached(entry_view(*e), s),
{
    match s {
        Scope::Staged => true,
        Scope::Unstaged => false,
        Scope::All => !e.unstaged(),
    }
}

/// Which side of the diff the bottom pane is showing.
pub fn diff_tag(e: &Entry, s: Scope) -> (t: &'static str)
    ensures
        t@ == if is_untracked(entry_view(*e)) {
            "[untracked]"@
        } else if is_cached(entry_view(*e), s) {
            "[staged]"@
        } else {
            "[worktree]"@
        },
{
    if e.untracked() {
        "[untracked]"
    } else if cached(e, s) {
        "[staged]"
    } else {
        "[worktree]"
    }
}

/// The tokens of a NUL-separated listing, empties dropped.
pub open spec fn tokens(raw: Seq<char>) -> Seq<Seq<char>> {
    split(raw, seq!['\0']).filter(|t: Seq<char>| t.len() > 0)
}

/// An entry read from a `XY path` token.
pub open spec fn entry_of(t: Seq<char>) -> EntryV {
    EntryV { x: t[0], y: t[1], path: t.subrange(3, t.len() as int), hidden: 0 }
}

/// The entries of `git status --porcelain -z` tokens: a token shorter than a
/// status code and its space is skipped, and a rename or copy is followed by
/// its original path, which is skipped with it.
pub open spec fn status_entries(toks: Seq<Seq<char>>) -> Seq<EntryV>
    decreases toks.len(),
{
    if toks.len() == 0 {
        seq![]
    } else {
        let t = toks[0];
        if t.len() < 3 {
            status_entries(toks.drop_first())
        } else {
            let skip: int = if t[0] == 'R' || t[0] == 'C' {
                2
            } else {
                1
            };
            seq![entry_of(t)] + status_entries(
                toks.subrange(min(skip, toks.len() as int), toks.len() as int),
            )
        }
    }
}

fn nonempty_tokens(raw: &str) -> (r: Vec<Vec<char>>)
    ensures
        seqs(r@) == tokens(raw@),
{
    let nul = ['\0'];
    assert(nul@ =~= seq!['\0']);
    crate::text::non_empty(split_in(&chars_of(raw), &nul))
}

fn entry_from(t: &Vec<char>) -> (e: Entry)
    requires
        t@.len() >= 3,
    ensures
        entry_view(e) == entry_of(t@),
{
    let n = t.len();
    let path = slice_vec(t, 3, n);
    Entry { x: t[0], y: t[1], path: string_of(&path), hidden: 0 }
}

/// Read `git status --porcelain -z` as entries. `-z` NUL-separates records, so
/// a path with spaces or newlines stays whole; a rename or copy is followed by
/// its original path, which is skipped.
pub fn parse_status(raw: &str) -> (r: Vec<Entry>)
    ensures
        entry_views(r@) == status_entries(tokens(raw@)),
{
    let toks = nonempty_tokens(raw);
    let ghost ts = seqs(toks@);
    let n = toks.len();
    let mut out: Vec<Entry> = Vec::new();
    let mut i: usize = 0;
    assert(ts.subrange(0, n as int) =~= ts);
    while i < n
        invariant
            n == toks@.len(),
            ts == seqs(toks@),
            ts.len() == n,
            i <= n,
            entry_views(out@) + status_entries(ts.subrange(i as int, n as int)) == status_entries(
                ts,
            ),
        decreases n - i,
    {
        let ghost rest = ts.subrange(i as int, n as int);
        assert(rest[0] == toks@[i as int]@);
        let t = &toks[i];
        if t.len() < 3 {
            assert(rest.drop_first() =~= ts.subrange(i + 1, n as int));
            i = i + 1;
        } else {
            let e = entry_from(t);
            let skip: usize = if t[0] == 'R' || t[0] == 'C' {
                2
            } else {
                1
            };
            let next: usize = if skip < n - i {
                i + skip
            } else {
                n
            };
            assert(rest.subrange(min(skip as int, rest.len() as int), rest.len() as int)
                =~= ts.subrange(next as int, n as int));
            let ghost before = entry_views(out@);
            out.push(e);
            assert(entry_views(out@) =~= before.push(entry_of(t@)));
            assert(entry_views(out@) + status_entries(ts.subrange(next as int, n as int))
                =~= before + status_entries(rest));
            i = next;
        }
    }
    assert(ts.subrange(n as int, n as int) =~= Seq::<Seq<char>>::empty());
    assert(entry_views(out@) + status_entries(ts.subrange(n as int, n as int)) =~= entry_views(
        out@,
    ));
    out
}

/// The untracked files `git status --porcelain -z -uall -- <dir>` lists under
/// one directory: every token longer than its status code and space.
pub open spec fn inside_entries(toks: Seq<Seq<char>>) -> Seq<EntryV> {
    toks.filter(|t: Seq<char>| t.len() > 3).map_values(|t: Seq<char>| entry_of(t))
}

/// Read the listing of one untracked directory as its own entries.
pub fn parse_untracked_inside(raw: &str) -> (r: Vec<Entry>)
    ensures
        entry_views(r@) == inside_entries(tokens(raw@)),
{
    let toks = nonempty_tokens(raw);
    let ghost ts = seqs(toks@);
    let mut out: Vec<Entry> = Vec::new();
    let mut i: usize = 0;
    while i < toks.len()
        invariant
            i <= toks@.len(),
            ts == seqs(toks@),
            entry_views(out@) == inside_entries(ts.take(i as int)),
        decreases toks@.len() - i,
    {
        let ghost t = ts[i as int];
        assert(ts.take(i + 1) =~= ts.take(i as int).push(t));
        assert(ts.take(i + 1).drop_last() =~= ts.take(i as int));
        reveal_with_fuel(Seq::<_>::filter, 1);
        if toks[i].len() > 3 {
            let ghost before = entry_views(out@);
            out.push(entry_from(&toks[i]));
            assert(entry_views(out@) =~= before.push(entry_of(t)));
            assert(inside_entries(ts.take(i + 1)) =~= inside_entries(ts.take(i as int)).push(
                entry_of(t),
            ));
        } else {
            assert(inside_entries(ts.take(i + 1)) =~= inside_entries(ts.take(i as int)));
        }
        i = i + 1;
    }
    assert(ts.take(toks@.len() as int) =~= ts);
    out
}

/// An untracked directory, which git lists as one row.
pub open spec fn lists_dir(e: EntryV) -> bool {
    is_untracked(e) && ends_with(e.path, seq!['/'])
}

/// Whether this entry is an untracked directory, whose files have to be read
/// for it to be shown as them.
pub fn needs_listing(e: &Entry) -> (b: bool)
    ensures
        b == lists_dir(entry_view(*e)),
{
    let slash = ['/'];
    assert(slash@ =~= seq!['/']);
    e.untracked() && ends_with_in(&chars_of(e.path.as_str()), &slash)
}

/// What one entry turns into, given what its directory holds: itself when it
/// is no directory or an empty one, itself with a count when it holds more
/// than `UNTRACKED_CAP` files, else the files.
pub open spec fn expanded(e: EntryV, inside: Seq<EntryV>) -> Seq<EntryV> {
    if !lists_dir(e) || inside.len() == 0 {
        seq![e]
    } else if inside.len() > UNTRACKED_CAP {
        seq![EntryV { hidden: inside.len() as usize, ..e }]
    } else {
        inside
    }
}

pub open spec fn all_expanded(es: Seq<EntryV>, insides: Seq<Seq<EntryV>>) -> Seq<EntryV>
    decreases es.len(),
{
    if es.len() == 0 {
        seq![]
    } else {
        all_expanded(es.drop_last(), insides) + expanded(es.last(), insides[es.len() - 1])
    }
}

pub open spec fn listing_views(v: Seq<Vec<Entry>>) -> Seq<Seq<EntryV>> {
    v.map_values(|l: Vec<Entry>| entry_views(l@))
}

/// Replace each untracked directory with the files inside it, unless there are
/// more than `UNTRACKED_CAP` of them. `insides[k]` is what the directory at
/// `entries[k]` holds; for an entry that is no untracked directory it is not
/// read.
pub fn expand_untracked_dirs(entries: Vec<Entry>, insides: Vec<Vec<Entry>>) -> (r: Vec<Entry>)
    requires
        insides@.len() == entries@.len(),
    ensures
        entry_views(r@) == all_expanded(entry_views(entries@), listing_views(insides@)),
{
    let ghost es = entry_views(entries@);
    let ghost ls = listing_views(insides@);
    let mut out: Vec<Entry> = Vec::new();
    let mut k: usize = 0;
    while k < entries.len()
        invariant
            k <= entries@.len(),
            insides@.len() == entries@.len(),
            es == entry_views(entries@),
            ls == listing_views(insides@),
            entry_views(out@) == all_expanded(es.take(k as int), ls),
        decreases entries@.len() - k,
    {
        let e = &entries[k];
        let ghost ev = es[k as int];
        assert(ev == entry_view(*e));
        assert(es.take(k + 1).drop_last() =~= es.take(k as int));
        assert(es.take(k + 1).last() == ev);
        let ghost before = entry_views(out@);
        let inside = &insides[k];
        assert(ls[k as int] == entry_views(inside@));
        if !needs_listing(e) || inside.len() == 0 {
            out.push(e.copy());
            assert(entry_views(out@) =~= before + seq![ev]);
        } else if inside.len() > UNTRACKED_CAP {
            let n = inside.len();
            out.push(Entry { x: e.x, y: e.y, path: e.path.clone(), hidden: n });
            assert(entry_views(out@) =~= before + seq![EntryV { hidden: n, ..ev }]);
        } else {
            let mut j: usize = 0;
            while j < inside.len()
                invariant
                    j <= inside@.len(),
                    entry_views(out@) == before + entry_views(inside@).take(j as int),
                decreases inside@.len() - j,
            {
                let ghost mid = entry_views(out@);
                out.push(inside[j].copy());
                assert(entry_views(out@) =~= mid.push(entry_view(inside@[j as int])));
                assert(entry_views(inside@).take(j + 1) =~= entry_views(inside@).take(
                    j as int,
                ).push(entry_view(inside@[j as int])));
                j = j + 1;
            }
            assert(entry_views(inside@).take(inside@.len() as int) =~= entry_views(inside@));
        }
        k = k + 1;
    }
    assert(es.take(entries@.len() as int) =~= es);
    out
}

/// The indices of the entries the tab keeps, in order.
pub open spec fn kept(es: Seq<EntryV>, s: Scope, n: int) -> Seq<usize>
    decreases n,
{
    if n <= 0 {
        seq![]
    } else if keeps(es[n - 1], s) {
        kept(es, s, n - 1).push((n - 1) as usize)
    } else {
        kept(es, s, n - 1)
    }
}

proof fn lemma_kept_bounded(es: Seq<EntryV>, s: Scope, n: int)
    requires
        0 <= n,
    ensures
        kept(es, s, n).len() <= n,
        forall|j: int| 0 <= j < kept(es, s, n).len() ==> kept(es, s, n)[j] < n,
    decreases n,
{
    if n > 0 {
        lemma_kept_bounded(es, s, n - 1);
    }
}

/// The cursor kept in a list `len` long: pulled back onto the last row when it
/// stood past it.
pub open spec fn kept_cursor(sel: usize, len: int) -> usize {
    if sel >= len {
        sat_sub(len, 1) as usize
    } else {
        sel
    }
}

/// Re-filter for a tab: the entries it keeps, by index, and the cursor kept
/// in range.
pub fn rescope(entries: &[Entry], scope_idx: usize, sel: usize) -> (r: (Vec<usize>, usize))
    requires
        scope_idx < SCOPE_COUNT,
    ensures
        r.0@ == kept(entry_views(entries@), scope_of(scope_idx), entries@.len() as int),
        r.1 == kept_cursor(sel, r.0@.len() as int),
        forall|j: int| 0 <= j < r.0@.len() ==> r.0@[j] < entries@.len(),
{
    let s = scope_at(scope_idx);
    let ghost es = entry_views(entries@);
    let mut visible: Vec<usize> = Vec::new();
    let mut k: usize = 0;
    while k < entries.len()
        invariant
            k <= entries@.len(),
            es == entry_views(entries@),
            s == scope_of(scope_idx),
            visible@ == kept(es, s, k as int),
        decreases entries@.len() - k,
    {
        assert(es[k as int] == entry_view(entries@[k as int]));
        if entries[k].in_scope(s) {
            visible.push(k);
        }
        k = k + 1;
    }
    proof {
        lemma_kept_bounded(es, s, entries@.len() as int);
    }
    let n = visible.len();
    let cur = if sel >= n {
        n.saturating_sub(1)
    } else {
        sel
    };
    (visible, cur)
}

/// The first row of `visible` whose entry has the path `path`.
pub open spec fn is_first_row(es: Seq<EntryV>, visible: Seq<usize>, path: Seq<char>, i: int) -> bool {
    &&& 0 <= i < visible.len()
    &&& es[visible[i] as int].path == path
    &&& forall|j: int| 0 <= j < i ==> es[visible[j] as int].path != path
}

/// After the working tree was read again: the row the cursor moves to, so it
/// stays on the file it was on, or `None` when that file is gone from the tab
/// or is still on the cursor's row.
pub fn reselect(entries: &[Entry], visible: &[usize], keep: Option<&str>, sel: usize) -> (r:
    Option<usize>)
    requires
        forall|j: int| 0 <= j < visible@.len() ==> visible@[j] < entries@.len(),
    ensures
        match keep {
            None => r is None,
            Some(p) => match r {
                Some(i) => i != sel && is_first_row(entry_views(entries@), visible@, p@, i as int),
                None => forall|i: int|
                    #![trigger visible@[i]]
                    is_first_row(entry_views(entries@), visible@, p@, i) ==> i == sel,
            },
        },
{
    let p = match keep {
        None => {
            return None;
        },
        Some(p) => p,
    };
    let want = chars_of(p);
    let ghost es = entry_views(entries@);
    let mut i: usize = 0;
    while i < visible.len()
        invariant
            i <= visible@.len(),
            want@ == p@,
            keep == Some(p),
            es == entry_views(entries@),
            forall|j: int| 0 <= j < visible@.len() ==> visible@[j] < entries@.len(),
            forall|j: int| 0 <= j < i ==> es[visible@[j] as int].path != p@,
        decreases visible@.len() - i,
    {
        let e = &entries[visible[i]];
        assert(es[visible@[i as int] as int] == entry_view(*e));
        if same(&chars_of(e.path.as_str()), &want) {
            assert(is_first_row(es, visible@, p@, i as int));
            if i == sel {
                assert forall|k: int| #![trigger visible@[k]] is_first_row(es, visible@, p@, k) implies k == sel by {
                    if k < i {
                        assert(es[visible@[k] as int].path != p@);
                    } else if k > i {
                        assert(es[visible@[i as int] as int].path == p@);
                    }
                }
                return None;
            }
            return Some(i);
        }
        i = i + 1;
    }
    None
}

/// What a key does in the status view, once the gates in front of it (a
/// modal, the `:` line, quitting) have let it through.
#[derive(PartialEq, Eq, Debug, Structural)]
pub enum Action {
    /// The diff pane scrolled to this row.
    Scroll(u16),
    /// The diff pane panned to this column, so it has to be drawn again.
    Pan(u16),
    /// The cursor moved to this row, so the diff is asked for again.
    Select(usize),
    /// The tab at this position, the cursor on its first row.
    Tab(usize),
    /// `git add` the file.
    Stage,
    /// `git restore --staged` the file.
    Unstage,
    /// Stage the file if it has unstaged changes, else unstage it.
    Toggle,
    /// Read the working tree again.
    Reload,
    /// Open the file in the difftool.
    Difftool,
    Nothing,
}

/// The action of `code` (with Ctrl held or not) on a view whose cursor is at
/// `sel` of `len` rows, on tab `scope_idx`, with the diff at `scroll` rows and
/// `hscroll` columns, its longest line `max_line` wide in cells `cell_w` wide;
/// `steps` is how far a held key moves.
pub open spec fn status_action(
    code: Key,
    ctrl: bool,
    steps: usize,
    sel: usize,
    len: usize,
    scope_idx: usize,
    scroll: u16,
    hscroll: u16,
    max_line: usize,
    cell_w: u16,
) -> Action {
    let by_rows = sat_mul16(SCROLL_STEP as int, steps as u16 as int);
    let by_cols = sat_mul16(PAN_STEP as int, steps as u16 as int);
    let down = code == Key::Char('j') || code == Key::Down;
    let up = code == Key::Char('k') || code == Key::Up;
    let left = code == Key::Char('h') || code == Key::Left;
    let right = code == Key::Char('l') || code == Key::Right;
    let to = if down {
        min(sel + steps, sat_sub(len as int, 1))
    } else {
        sat_sub(sel as int, steps as int)
    };
    if ctrl && down {
        Action::Scroll(sat_add16(scroll as int, by_rows as int))
    } else if ctrl && up {
        Action::Scroll(sat_sub(scroll as int, by_rows as int) as u16)
    } else if ctrl && right {
        Action::Pan(
            min(
                sat_add16(hscroll as int, by_cols as int) as int,
                scroll_limit(max_line as int, cell_w as int),
            ) as u16,
        )
    } else if ctrl && left {
        Action::Pan(sat_sub(hscroll as int, by_cols as int) as u16)
    } else if (down || up) && to != sel {
        Action::Select(to as usize)
    } else if !ctrl && left && scope_idx > 0 {
        Action::Tab((scope_idx - 1) as usize)
    } else if !ctrl && right && scope_idx + 1 < SCOPE_COUNT {
        Action::Tab((scope_idx + 1) as usize)
    } else if code == Key::Char('s') {
        Action::Stage
    } else if code == Key::Char('u') {
        Action::Unstage
    } else if code == Key::Char(' ') {
        Action::Toggle
    } else if code == Key::Char('r') {
        Action::Reload
    } else if code == Key::Enter {
        Action::Difftool
    } else {
        Action::Nothing
    }
}

/// What a key does in the status view. Ctrl-j/k scroll the diff and Ctrl-h/l
/// pan it, j/k move the cursor, h/l switch tabs, and `s`, `u`, space, `r` and
/// Enter act on the file under the cursor.
pub fn status_key(
    code: Key,
    ctrl: bool,
    steps: usize,
    sel: usize,
    len: usize,
    scope_idx: usize,
    scroll: u16,
    hscroll: u16,
    max_line: usize,
    cell_w: u16,
) -> (a: Action)
    ensures
        a == status_action(
            code,
            ctrl,
            steps,
            sel,
            len,
            scope_idx,
            scroll,
            hscroll,
            max_line,
            cell_w,
        ),
{
    let n = steps as u16;
    let by_rows = mul_sat(SCROLL_STEP, n);
    let by_cols = mul_sat(PAN_STEP, n);
    let down = is_down(code);
    let up = is_up(code);
    let left = is_left(code);
    let right = is_right(code);
    if ctrl && down {
        Action::Scroll(scroll.saturating_add(by_rows))
    } else if ctrl && up {
        Action::Scroll(scroll.saturating_sub(by_rows))
    } else if ctrl && right {
        Action::Pan(clamp_hscroll(hscroll.saturating_add(by_cols), max_line, cell_w))
    } else if ctrl && left {
        Action::Pan(hscroll.saturating_sub(by_cols))
    } else if (down || up) && stepped(sel, len, down, steps) != sel {
        Action::Select(stepped(sel, len, down, steps))
    } else if !ctrl && left && scope_idx > 0 {
        Action::Tab(scope_idx - 1)
    } else if !ctrl && right && scope_idx < SCOPE_COUNT - 1 {
        Action::Tab(scope_idx + 1)
    } else if code == Key::Char('s') {
        Action::Stage
    } else if code == Key::Char('u') {
        Action::Unstage
    } else if code == Key::Char(' ') {
        Action::Toggle
    } else if code == Key::Char('r') {
        Action::Reload
    } else if code == Key::Enter {
        Action::Difftool
    } else {
        Action::Nothing
    }
}

/// The footer's note when Enter is pressed on an untracked file.
pub const UNTRACKED_NOTE: &'static str = "untracked - nothing to compare";

/// The git words that stage the file at `path` (`add`) or unstage it
/// (`restore --staged`).
pub open spec fn stage_words(stage: bool, path: Seq<char>) -> Seq<Seq<char>> {
    if stage {
        seq!["add"@, "--"@, path]
    } else {
        seq!["restore"@, "--staged"@, "--"@, path]
    }
}

fn with_path(words: &[&str], path: &String) -> (r: Vec<String>)
    ensures
        string_views(r@) == str_views(words@).push(path@),
{
    let mut r = owned(words);
    let ghost before = string_views(r@);
    r.push(path.clone());
    assert(string_views(r@) =~= before.push(path@));
    r
}

/// The git arguments that stage (`stage`) or unstage the entry's file.
pub fn stage_args(stage: bool, e: &Entry) -> (r: Vec<String>)
    ensures
        string_views(r@) == stage_words(stage, e.path@),
{
    if stage {
        let w = ["add", "--"];
        let r = with_path(&w, &e.path);
        proof {
            reveal_strlit("add");
            reveal_strlit("--");
        }
        assert(str_views(w@).push(e.path@) =~= stage_words(stage, e.path@));
        r
    } else {
        let w = ["restore", "--staged", "--"];
        let r = with_path(&w, &e.path);
        assert(str_views(w@).push(e.path@) =~= stage_words(stage, e.path@));
        r
    }
}

/// The `git` words that give the entry's diff: an untracked file against the
/// null device `nul`, else the index against HEAD or the working tree against
/// the index, as `is_cached` says.
pub open spec fn diff_words(e: EntryV, s: Scope, nul: Seq<char>) -> Seq<Seq<char>> {
    if is_untracked(e) {
        seq!["diff"@, "--no-index"@, "--"@, nul, e.path]
    } else if is_cached(e, s) {
        seq!["diff"@, "--cached"@, "--"@, e.path]
    } else {
        seq!["diff"@, "--"@, e.path]
    }
}

/// The git arguments that give the diff the pane shows. `--no-index` exits
/// non-zero when the files differ, so its answer is read whatever the status.
pub fn diff_args(e: &Entry, s: Scope, nul: &str) -> (r: Vec<String>)
    ensures
        string_views(r@) == diff_words(entry_view(*e), s, nul@),
{
    if e.untracked() {
        let w = ["diff", "--no-index", "--", nul];
        let r = with_path(&w, &e.path);
        assert(str_views(w@).push(e.path@) =~= diff_words(entry_view(*e), s, nul@));
        r
    } else if cached(e, s) {
        let w = ["diff", "--cached", "--"];
        let r = with_path(&w, &e.path);
        assert(str_views(w@).push(e.path@) =~= diff_words(entry_view(*e), s, nul@));
        r
    } else {
        let w = ["diff", "--"];
        let r = with_path(&w, &e.path);
        assert(str_views(w@).push(e.path@) =~= diff_words(entry_view(*e), s, nul@));
        r
    }
}

/// The difftool words for the entry, matching the comparison the pane shows;
/// an untracked file has nothing to compare.
pub open spec fn difftool_words(e: EntryV, s: Scope) -> Option<Seq<Seq<char>>> {
    if is_untracked(e) {
        None
    } else if is_cached(e, s) {
        Some(seq!["--cached"@, "--"@, e.path])
    } else {
        Some(seq!["--"@, e.path])
    }
}

pub open spec fn opt_views(o: Option<Vec<String>>) -> Option<Seq<Seq<char>>> {
    match o {
        Some(v) => Some(string_views(v@)),
        None => None,
    }
}

/// The arguments handed to `git difftool` for the entry, or `None` for an
/// untracked file, which gets `UNTRACKED_NOTE` instead.
pub fn difftool_args(e: &Entry, s: Scope) -> (r: Option<Vec<String>>)
    ensures
        opt_views(r) == difftool_words(entry_view(*e), s),
{
    if e.untracked() {
        None
    } else if cached(e, s) {
        let w = ["--cached", "--"];
        let r = with_path(&w, &e.path);
        assert(str_views(w@).push(e.path@) =~= seq!["--cached"@, "--"@, e.path@]);
        Some(r)
    } else {
        let w = ["--"];
        let r = with_path(&w, &e.path);
        assert(str_views(w@).push(e.path@) =~= seq!["--"@, e.path@]);
        Some(r)
    }
}

/// The `git status`-style two-column code: the staged side, blank when there
/// is nothing staged, and the unstaged side, `?` for an untracked file.
pub open spec fn code_of(e: EntryV) -> (char, char) {
    (
        if is_staged(e) {
            e.x
        } else {
            ' '
        },
        if is_untracked(e) {
            '?'
        } else if e.y != ' ' {
            e.y
        } else {
            ' '
        },
    )
}

pub fn status_code(e: &Entry) -> (r: (char, char))
    ensures
        r == code_of(entry_view(*e)),
{
    let x = if e.staged() {
        e.x
    } else {
        ' '
    };
    let y = if e.untracked() {
        '?'
    } else if e.y != ' ' {
        e.y
    } else {
        ' '
    };
    (x, y)
}

/// After the path of a collapsed directory: how many files it holds.
pub open spec fn hidden_note_of(hidden: usize) -> Seq<char> {
    if hidden == 0 {
        seq![]
    } else {
        "  "@ + decimal(hidden as nat) + " files"@
    }
}

pub fn hidden_note(e: &Entry) -> (r: String)
    ensures
        r@ == hidden_note_of(e.hidden),
{
    if e.hidden == 0 {
        return string_of(&[]);
    }
    let n = decimal_of(e.hidden as u64);
    let lead = chars_of("  ");
    let tail = chars_of(" files");
    string_of(&concat(&concat(&lead, &n), &tail))
}

/// What the footer offers, most used first.
pub open spec fn actions_of() -> Seq<Seq<char>> {
    seq!["s stage"@, "u unstage"@, "space flip"@, "enter difftool"@, "r refresh"@]
}

pub fn actions() -> (r: Vec<String>)
    ensures
        string_views(r@) == actions_of(),
{
    let w = ["s stage", "u unstage", "space flip", "enter difftool", "r refresh"];
    let r = owned(&w);
    assert(str_views(w@) =~= actions_of());
    r
}

/// Every key the view answers to, for the box `:help` opens.
pub open spec fn help_of() -> Seq<(Seq<char>, Seq<char>)> {
    seq![
        (Y_MOVE@, "move (hold to speed up)"@),
        (X_MOVE@, "switch tab"@),
        ("s"@, "stage the file"@),
        ("u"@, "unstage it"@),
        ("space"@, "flip it between staged and not"@),
        (CTRL_Y_MOVE@, "scroll the diff"@),
        (CTRL_X_MOVE@, "pan it sideways"@),
        ("enter"@, "open the file in your git difftool"@),
        ("r"@, "read it again from git"@),
        ("q"@, "quit"@),
    ]
}

pub fn help() -> (r: Vec<(String, String)>)
    ensures
        pair_views(r@) == help_of(),
{
    let rows = [
        (Y_MOVE, "move (hold to speed up)"),
        (X_MOVE, "switch tab"),
        ("s", "stage the file"),
        ("u", "unstage it"),
        ("space", "flip it between staged and not"),
        (CTRL_Y_MOVE, "scroll the diff"),
        (CTRL_X_MOVE, "pan it sideways"),
        ("enter", "open the file in your git difftool"),
        ("r", "read it again from git"),
        ("q", "quit"),
    ];
    let r = owned_pairs(&rows);
    assert(str_pair_views(rows@) =~= help_of());
    r
}

} // verus!
