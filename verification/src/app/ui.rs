//! What the drill's panes say: the footer's keys, the `:help` rows, the
//! pieces of a pane's title, and the marks and flags a row carries. Drawing
//! them is the program's.

use crate::app::Level;
use crate::git::load::{Branch, TagState};
use crate::git::tags::RemoteTags;
use crate::git::RepoStatus;
use crate::num::{decimal, decimal_of};
use crate::text::{
    chars_of, concat, contains, contains_in, join, join_in, owned, pad_right, pad_right_in,
    pair_views, seqs, slice_vec, str_views, string_of, string_views,
};
use crate::tui::input::{CTRL_X_MOVE, CTRL_Y_MOVE, X_MOVE, Y_MOVE};
use crate::tui::widgets::Hue;
use vstd::prelude::*;

verus! {

/// The footer's share of a level's keys: what it can do, most used first so
/// a narrow window loses the least used. `undo` is the delete `u` would put
/// back (`Some(true)` a branch), `can_track` whether `t` has something to
/// offer.
pub open spec fn actions_of(level: Level, undo: Option<bool>, can_track: bool) -> Seq<Seq<char>> {
    let first = match level {
        Level::Commits => "enter diff"@,
        Level::Diff => "enter difftool"@,
        _ => "enter open"@,
    };
    let mid: Seq<Seq<char>> = match level {
        Level::Repos => seq!["s sync all"@, "S pull all"@],
        Level::Branches => seq!["d delete branch"@] + (if undo == Some(true) {
            seq!["u undo"@]
        } else {
            seq![]
        }) + seq!["s sync"@, "S pull"@],
        Level::Tags => seq!["d delete tag"@] + (if undo == Some(false) {
            seq!["u undo"@]
        } else {
            seq![]
        }) + (if can_track {
            seq!["t track"@]
        } else {
            seq![]
        }),
        _ => seq![],
    };
    let tail: Seq<Seq<char>> = if level != Level::Diff {
        seq!["K inspect"@, "r refresh"@]
    } else {
        seq!["K inspect"@]
    };
    seq![first] + mid + tail
}

pub fn actions(level: Level, undo: Option<bool>, can_track: bool) -> (r: Vec<String>)
    ensures
        string_views(r@) == actions_of(level, undo, can_track),
{
    let mut w: Vec<&str> = Vec::new();
    match level {
        Level::Commits => w.push("enter diff"),
        Level::Diff => w.push("enter difftool"),
        _ => w.push("enter open"),
    }
    let ghost first = str_views(w@);
    match level {
        Level::Repos => {
            w.push("s sync all");
            w.push("S pull all");
        },
        Level::Branches => {
            w.push("d delete branch");
            if undo == Some(true) {
                w.push("u undo");
            }
            w.push("s sync");
            w.push("S pull");
        },
        Level::Tags => {
            w.push("d delete tag");
            if undo == Some(false) {
                w.push("u undo");
            }
            if can_track {
                w.push("t track");
            }
        },
        _ => {},
    }
    w.push("K inspect");
    if level != Level::Diff {
        w.push("r refresh");
    }
    let r = owned(&w);
    assert(str_views(w@) =~= actions_of(level, undo, can_track));
    r
}

/// The pane below a level, in words.
pub open spec fn below_of(level: Level) -> Seq<char> {
    match level {
        Level::Repos => "branches"@,
        Level::Branches | Level::Tags => "commits"@,
        _ => "files"@,
    }
}

/// Every key a level answers to, for the box `:help` opens.
pub open spec fn help_of(level: Level) -> Seq<(Seq<char>, Seq<char>)> {
    if level == Level::Diff {
        seq![
            (CTRL_Y_MOVE@, "scroll the diff"@),
            (CTRL_X_MOVE@, "pan it sideways"@),
            ("enter"@, "open the file in your git difftool"@),
            ("K"@, "everything about the commit"@),
            ("esc"@, "back to the commits"@),
            ("q"@, "quit"@),
        ]
    } else {
        let below = below_of(level);
        let head = seq![
            (Y_MOVE@, "move (hold to speed up)"@),
            (X_MOVE@, "switch tab"@),
            (CTRL_Y_MOVE@, "move in the "@ + below + " below"@),
            ("/ ?"@, "filter this list / the "@ + below),
            (
                "enter"@,
                if level == Level::Commits {
                    "open the file's diff"@
                } else {
                    "open it"@
                },
            ),
        ];
        let mid: Seq<(Seq<char>, Seq<char>)> = match level {
            Level::Repos => seq![
                ("s"@, "sync every repo listed: fetch and prune"@),
                ("S"@, "sync them and pull each checked-out branch"@),
            ],
            Level::Branches => seq![
                ("d"@, "delete branch (asks first)"@),
                ("u"@, "put back the last delete"@),
                ("s"@, "sync: fetch and prune"@),
                ("S"@, "sync and pull the checked-out branch"@),
            ],
            Level::Tags => seq![
                ("d"@, "delete tag (asks first)"@),
                ("u"@, "put back the last delete"@),
                ("t"@, "show push marks instantly"@),
            ],
            _ => seq![],
        };
        head + mid + seq![
            ("K"@, "everything about the row under the cursor"@),
            ("r"@, "read it again from git"@),
            ("esc"@, "back"@),
            ("q"@, "quit"@),
        ]
    }
}

fn push_pair(v: &mut Vec<(String, String)>, k: &str, d: &str)
    ensures
        pair_views(final(v)@) == pair_views(old(v)@).push((k@, d@)),
{
    let ghost before = pair_views(v@);
    v.push((k.to_owned(), d.to_owned()));
    assert(pair_views(v@) =~= before.push((k@, d@)));
}

fn cat(a: &str, b: &[char]) -> (s: String)
    ensures
        s@ == a@ + b@,
{
    string_of(&concat(&chars_of(a), b))
}

pub fn help(level: Level) -> (r: Vec<(String, String)>)
    ensures
        pair_views(r@) == help_of(level),
{
    let mut r: Vec<(String, String)> = Vec::new();
    if level == Level::Diff {
        push_pair(&mut r, CTRL_Y_MOVE, "scroll the diff");
        push_pair(&mut r, CTRL_X_MOVE, "pan it sideways");
        push_pair(&mut r, "enter", "open the file in your git difftool");
        push_pair(&mut r, "K", "everything about the commit");
        push_pair(&mut r, "esc", "back to the commits");
        push_pair(&mut r, "q", "quit");
        assert(pair_views(r@) =~= help_of(level));
        return r;
    }
    let below = match level {
        Level::Repos => chars_of("branches"),
        Level::Branches | Level::Tags => chars_of("commits"),
        _ => chars_of("files"),
    };
    push_pair(&mut r, Y_MOVE, "move (hold to speed up)");
    push_pair(&mut r, X_MOVE, "switch tab");
    let ghost before = pair_views(r@);
    let moves = string_of(&concat(&concat(&chars_of("move in the "), &below), &chars_of(" below")));
    r.push((CTRL_Y_MOVE.to_owned(), moves));
    let filters = cat("filter this list / the ", &below);
    r.push(("/ ?".to_owned(), filters));
    assert(pair_views(r@) =~= before.push((CTRL_Y_MOVE@, "move in the "@ + below@ + " below"@)).push(
        ("/ ?"@, "filter this list / the "@ + below@),
    ));
    if level == Level::Commits {
        push_pair(&mut r, "enter", "open the file's diff");
    } else {
        push_pair(&mut r, "enter", "open it");
    }
    match level {
        Level::Repos => {
            push_pair(&mut r, "s", "sync every repo listed: fetch and prune");
            push_pair(&mut r, "S", "sync them and pull each checked-out branch");
        },
        Level::Branches => {
            push_pair(&mut r, "d", "delete branch (asks first)");
            push_pair(&mut r, "u", "put back the last delete");
            push_pair(&mut r, "s", "sync: fetch and prune");
            push_pair(&mut r, "S", "sync and pull the checked-out branch");
        },
        Level::Tags => {
            push_pair(&mut r, "d", "delete tag (asks first)");
            push_pair(&mut r, "u", "put back the last delete");
            push_pair(&mut r, "t", "show push marks instantly");
        },
        _ => {},
    }
    push_pair(&mut r, "K", "everything about the row under the cursor");
    push_pair(&mut r, "r", "read it again from git");
    push_pair(&mut r, "esc", "back");
    push_pair(&mut r, "q", "quit");
    assert(pair_views(r@) =~= help_of(level));
    r
}

/// Where the cursor stands in a pane, as its title says it: `3/12`, with a
/// trailing `…` while the pane is still being loaded into; `(none)` for an
/// empty pane, or `…` while it is loading.
pub open spec fn count_of(empty: bool, loading: bool, cur: usize, len: usize) -> Seq<char> {
    if empty {
        if loading {
            "…"@
        } else {
            "(none)"@
        }
    } else {
        decimal((cur + 1) as nat) + "/"@ + decimal(len as nat) + if loading {
            "…"@
        } else {
            seq![]
        }
    }
}

pub fn count_text(empty: bool, loading: bool, cur: usize, len: usize) -> (s: String)
    requires
        cur < u64::MAX,
    ensures
        s@ == count_of(empty, loading, cur, len),
{
    if empty {
        if loading {
            return "…".to_owned();
        }
        return "(none)".to_owned();
    }
    let a = decimal_of(cur as u64 + 1);
    let b = decimal_of(len as u64);
    let mut v = concat(&concat(&a, &chars_of("/")), &b);
    if loading {
        v = concat(&v, &chars_of("…"));
    }
    string_of(&v)
}

/// The filter a pane shows in its title, behind the key that opened it
/// (`key`): with the caret `▏` at character `caret` while it is being typed,
/// as typed once it is not, and nothing for an empty one not being typed.
pub open spec fn filter_of(editing: bool, text: Seq<char>, caret: usize, key: char) -> Option<
    Seq<char>,
> {
    if editing {
        let at = if caret < text.len() {
            caret as int
        } else {
            text.len() as int
        };
        Some(seq![key] + text.take(at) + seq!['▏'] + text.skip(at))
    } else if text.len() > 0 {
        Some(seq![key] + text)
    } else {
        None
    }
}

pub open spec fn opt_string(o: Option<String>) -> Option<Seq<char>> {
    match o {
        Some(s) => Some(s@),
        None => None,
    }
}

pub fn filter_text(editing: bool, text: &str, caret: usize, key: char) -> (r: Option<String>)
    ensures
        opt_string(r) == filter_of(editing, text@, caret, key),
{
    let t = chars_of(text);
    let k = [key];
    if editing {
        let n = t.len();
        let at = if caret < n {
            caret
        } else {
            n
        };
        let bar = ['▏'];
        let v = concat(&concat(&concat(&k, &slice_vec(&t, 0, at)), &bar), &slice_vec(&t, at, n));
        assert(v@ =~= seq![key] + text@.take(at as int) + seq!['▏'] + text@.skip(at as int));
        Some(string_of(&v))
    } else if t.len() > 0 {
        let v = concat(&k, &t);
        assert(v@ =~= seq![key] + text@);
        Some(string_of(&v))
    } else {
        None
    }
}

/// The tags pane's name, which says what the marks are read against and so
/// never changes while it is open, and what that remote is doing, which does.
/// `remote` is what the remote said so far (`None`: not yet), `refreshing`
/// whether it is being asked again.
pub open spec fn tags_label_of(
    tag_remote: Option<Seq<char>>,
    remote: Option<RemoteTags>,
    refreshing: bool,
) -> (Seq<char>, Option<Seq<char>>) {
    let name = match tag_remote {
        Some(r) => "tags vs "@ + r,
        None => "tags"@,
    };
    let status = match remote {
        None => Some("asking the remote…"@),
        Some(RemoteTags::NoRemote) => Some("no remote"@),
        Some(RemoteTags::Unreachable(_)) => Some("unreachable"@),
        Some(RemoteTags::Answered { fresh, .. }) => if fresh {
            None
        } else if refreshing {
            Some("refreshing…"@)
        } else {
            Some("as of last fetch"@)
        },
    };
    (name, status)
}

pub open spec fn opt_str(o: Option<&str>) -> Option<Seq<char>> {
    match o {
        Some(s) => Some(s@),
        None => None,
    }
}

pub open spec fn opt_remote(o: Option<&RemoteTags>) -> Option<RemoteTags> {
    match o {
        Some(r) => Some(*r),
        None => None,
    }
}

pub fn tags_label(tag_remote: Option<&str>, remote: Option<&RemoteTags>, refreshing: bool) -> (r: (
    String,
    Option<String>,
))
    ensures
        (r.0@, opt_string(r.1)) == tags_label_of(opt_str(tag_remote), opt_remote(remote), refreshing),
{
    let name = match tag_remote {
        Some(t) => cat("tags vs ", &chars_of(t)),
        None => "tags".to_owned(),
    };
    let status = match remote {
        None => Some("asking the remote…".to_owned()),
        Some(RemoteTags::NoRemote) => Some("no remote".to_owned()),
        Some(RemoteTags::Unreachable(_)) => Some("unreachable".to_owned()),
        Some(RemoteTags::Answered { fresh, .. }) => {
            if *fresh {
                None
            } else if refreshing {
                Some("refreshing…".to_owned())
            } else {
                Some("as of last fetch".to_owned())
            }
        },
    };
    (name, status)
}

/// The commits pane's name: the tag range it holds when the drill started at
/// the tags, else the paths it was filtered to.
pub open spec fn commits_label_of(from_tags: bool, range: Seq<char>, paths: Seq<Seq<char>>) -> Seq<
    char,
> {
    if from_tags {
        range
    } else if paths.len() == 0 {
        "commits"@
    } else {
        "commits · "@ + join(paths, seq![' '])
    }
}

pub fn commits_label(from_tags: bool, range: &str, paths: &[String]) -> (s: String)
    ensures
        s@ == commits_label_of(from_tags, range@, string_views(paths@)),
{
    if from_tags {
        return string_of(&chars_of(range));
    }
    if paths.len() == 0 {
        return "commits".to_owned();
    }
    let mut ps: Vec<Vec<char>> = Vec::new();
    let mut k: usize = 0;
    while k < paths.len()
        invariant
            k <= paths@.len(),
            seqs(ps@) == string_views(paths@).take(k as int),
        decreases paths@.len() - k,
    {
        let ghost before = seqs(ps@);
        ps.push(chars_of(paths[k].as_str()));
        assert(seqs(ps@) =~= before.push(paths@[k as int]@));
        assert(string_views(paths@).take(k + 1) =~= string_views(paths@).take(k as int).push(
            paths@[k as int]@,
        ));
        k = k + 1;
    }
    assert(string_views(paths@).take(paths@.len() as int) =~= string_views(paths@));
    let sp = [' '];
    assert(sp@ =~= seq![' ']);
    cat("commits · ", &join_in(&ps, &sp))
}

/// The title of the commits under a tag: a tag only the remote has names a
/// commit this clone may not have, and "(none)" would read as a tag with
/// nothing in it.
pub open spec fn tag_commits_label_of(unfetched: bool, range: Seq<char>) -> Seq<char> {
    if unfetched {
        "commits · not in this clone until a fetch"@
    } else {
        range
    }
}

pub fn tag_commits_label(empty: bool, loading: bool, state: Option<TagState>, range: &str) -> (s:
    String)
    ensures
        s@ == tag_commits_label_of(empty && !loading && state == Some(TagState::Remote), range@),
{
    if empty && !loading && state == Some(TagState::Remote) {
        "commits · not in this clone until a fetch".to_owned()
    } else {
        string_of(&chars_of(range))
    }
}

/// A repo's state flags, `✚2 ↑1 ↓3`, one space between them, or the clean
/// marker when there is nothing to report.
pub open spec fn flags_of(dirty: usize, ahead: usize, behind: usize, has_upstream: bool) -> Seq<
    (Seq<char>, Hue),
> {
    if dirty == 0 && ahead == 0 && behind == 0 {
        if has_upstream {
            seq![("✓ clean"@, Hue::Green)]
        } else {
            seq![("✓ clean (no upstream)"@, Hue::Dim)]
        }
    } else {
        let raw = (if dirty > 0 {
            seq![("✚"@ + decimal(dirty as nat), Hue::Yellow)]
        } else {
            seq![]
        }) + (if ahead > 0 {
            seq![("↑"@ + decimal(ahead as nat), Hue::Green)]
        } else {
            seq![]
        }) + (if behind > 0 {
            seq![("↓"@ + decimal(behind as nat), Hue::Red)]
        } else {
            seq![]
        });
        Seq::new(
            raw.len(),
            |i: int|
                if i < raw.len() - 1 {
                    (raw[i].0 + seq![' '], raw[i].1)
                } else {
                    raw[i]
                },
        )
    }
}

pub open spec fn flag_views(v: Seq<(String, Hue)>) -> Seq<(Seq<char>, Hue)> {
    v.map_values(|p: (String, Hue)| (p.0@, p.1))
}

pub fn state_flags(r: &RepoStatus) -> (f: Vec<(String, Hue)>)
    ensures
        flag_views(f@) == flags_of(r.dirty, r.ahead, r.behind, r.has_upstream),
{
    if !r.needs_attention() {
        let mut f: Vec<(String, Hue)> = Vec::new();
        if r.has_upstream {
            f.push(("✓ clean".to_owned(), Hue::Green));
        } else {
            f.push(("✓ clean (no upstream)".to_owned(), Hue::Dim));
        }
        assert(flag_views(f@) =~= flags_of(r.dirty, r.ahead, r.behind, r.has_upstream));
        return f;
    }
    let mut raw: Vec<(Vec<char>, Hue)> = Vec::new();
    if r.dirty > 0 {
        raw.push((concat(&chars_of("✚"), &decimal_of(r.dirty as u64)), Hue::Yellow));
    }
    if r.ahead > 0 {
        raw.push((concat(&chars_of("↑"), &decimal_of(r.ahead as u64)), Hue::Green));
    }
    if r.behind > 0 {
        raw.push((concat(&chars_of("↓"), &decimal_of(r.behind as u64)), Hue::Red));
    }
    let ghost rv: Seq<(Seq<char>, Hue)> = raw@.map_values(|p: (Vec<char>, Hue)| (p.0@, p.1));
    let ghost want = (if r.dirty > 0 {
        seq![("✚"@ + decimal(r.dirty as nat), Hue::Yellow)]
    } else {
        seq![]
    }) + (if r.ahead > 0 {
        seq![("↑"@ + decimal(r.ahead as nat), Hue::Green)]
    } else {
        seq![]
    }) + (if r.behind > 0 {
        seq![("↓"@ + decimal(r.behind as nat), Hue::Red)]
    } else {
        seq![]
    });
    assert(rv =~= want);
    let n = raw.len();
    let mut f: Vec<(String, Hue)> = Vec::new();
    let mut i: usize = 0;
    while i < n
        invariant
            n == raw@.len(),
            rv == raw@.map_values(|p: (Vec<char>, Hue)| (p.0@, p.1)),
            i <= n,
            flag_views(f@) =~= Seq::new(
                n as nat,
                |k: int|
                    if k < n - 1 {
                        (rv[k].0 + seq![' '], rv[k].1)
                    } else {
                        rv[k]
                    },
            ).take(i as int),
        decreases n - i,
    {
        let ghost before = flag_views(f@);
        assert(rv[i as int] == (raw@[i as int].0@, raw@[i as int].1));
        let (text, hue) = (&raw[i].0, raw[i].1);
        if i + 1 < n {
            let sp = [' '];
            assert(sp@ =~= seq![' ']);
            f.push((string_of(&concat(text, &sp)), hue));
            assert(flag_views(f@) =~= before.push((rv[i as int].0 + seq![' '], rv[i as int].1)));
        } else {
            f.push((string_of(text), hue));
            assert(flag_views(f@) =~= before.push(rv[i as int]));
        }
        i = i + 1;
    }
    f
}

/// A branch's quick-scan glyph: `↑` unpushed (yellow), `⚑` its upstream gone
/// (red), nothing for a remote branch or an in-sync local one.
pub open spec fn branch_mark_of(remote: bool, gone: bool, unpushed: bool) -> (Seq<char>, Hue) {
    if remote {
        (""@, Hue::Gray)
    } else if gone {
        ("⚑"@, Hue::Red)
    } else if unpushed {
        ("↑"@, Hue::Yellow)
    } else {
        (""@, Hue::Gray)
    }
}

pub fn branch_mark(b: &Branch) -> (r: (&'static str, Hue))
    ensures
        (r.0@, r.1) == branch_mark_of(
            b.remote,
            contains(b.track@, "gone"@),
            !b.remote && (!b.has_upstream || contains(b.track@, "gone"@) || contains(
                b.track@,
                "ahead"@,
            )),
        ),
{
    if b.remote {
        return ("", Hue::Gray);
    }
    if contains_in(&chars_of(b.track.as_str()), &chars_of("gone")) {
        return ("⚑", Hue::Red);
    }
    if b.unpushed() {
        return ("↑", Hue::Yellow);
    }
    ("", Hue::Gray)
}

/// A tag's quick-scan glyph: `↑` not pushed (yellow), `⚑` the two sides
/// differ (red), `↓` only the remote has it (magenta), nothing once it is in
/// step.
pub open spec fn tag_mark_of(state: TagState) -> (Seq<char>, Hue) {
    match state {
        TagState::Local => ("↑"@, Hue::Yellow),
        TagState::Differs => ("⚑"@, Hue::Red),
        TagState::Remote => ("↓"@, Hue::Magenta),
        _ => (""@, Hue::Gray),
    }
}

pub fn tag_mark(state: TagState) -> (r: (&'static str, Hue))
    ensures
        (r.0@, r.1) == tag_mark_of(state),
{
    match state {
        TagState::Local => ("↑", Hue::Yellow),
        TagState::Differs => ("⚑", Hue::Red),
        TagState::Remote => ("↓", Hue::Magenta),
        _ => ("", Hue::Gray),
    }
}

/// Where a tag stands, in its column, or, while the remote is still being
/// asked, that it is: a blank there reads as "nothing to say" when the answer
/// is simply not in. The flag says the cell is drawn dim.
pub open spec fn state_cell_of(state: TagState, asking: bool) -> (Seq<char>, bool) {
    if asking && state == TagState::Unknown {
        ("  "@ + pad_right("checking…"@, 11), true)
    } else {
        ("  "@ + pad_right(crate::app::tags::state_label(state), 11), false)
    }
}

pub fn state_cell(state: TagState, asking: bool) -> (r: (String, bool))
    ensures
        (r.0@, r.1) == state_cell_of(state, asking),
{
    if asking && state == TagState::Unknown {
        return (cat("  ", &pad_right_in(&chars_of("checking…"), 11)), true);
    }
    (cat("  ", &pad_right_in(&chars_of(state.label()), 11)), false)
}

} // verus!
