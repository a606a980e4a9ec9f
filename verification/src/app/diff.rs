//! The diff level: one file's change, side by side. What is decided here: how
//! far a held key scrolls or pans it, how a row is named in a note, and how
//! `r` on a diff finds the same file again once the commits are read anew.

use crate::text::{chars_of, concat, same, string_of};
use crate::tui::{clamp_hscroll, min, mul_sat, sat_add16, sat_mul16, sat_sub, scroll_limit};
use vstd::prelude::*;

verus! {

/// Rows a Ctrl-j/k moves the diff, before a held key multiplies them.
pub const SCROLL_STEP: u16 = 3;

/// Columns a Ctrl-h/l pans the diff, before a held key multiplies them.
pub const PAN_STEP: u16 = 8;

/// The diff's scroll after Ctrl-j (`down`) or Ctrl-k held for `steps`.
pub fn scroll_diff(scroll: u16, down: bool, steps: usize) -> (r: u16)
    ensures
        r == if down {
            sat_add16(scroll as int, sat_mul16(SCROLL_STEP as int, steps as u16 as int) as int)
        } else {
            sat_sub(scroll as int, sat_mul16(SCROLL_STEP as int, steps as u16 as int) as int) as u16
        },
{
    let by = mul_sat(SCROLL_STEP, steps as u16);
    if down {
        scroll.saturating_add(by)
    } else {
        scroll.saturating_sub(by)
    }
}

/// The diff's pan after Ctrl-l (`right`) or Ctrl-h held for `steps`: right
/// stops where the widest line (`max_line`) ends in a cell `cell_w` wide.
pub fn pan_diff(hscroll: u16, right: bool, steps: usize, max_line: usize, cell_w: u16) -> (r: u16)
    ensures
        r == if right {
            min(
                sat_add16(hscroll as int, sat_mul16(PAN_STEP as int, steps as u16 as int) as int)
                    as int,
                scroll_limit(max_line as int, cell_w as int),
            ) as u16
        } else {
            sat_sub(hscroll as int, sat_mul16(PAN_STEP as int, steps as u16 as int) as int) as u16
        },
{
    let by = mul_sat(PAN_STEP, steps as u16);
    if right {
        clamp_hscroll(hscroll.saturating_add(by), max_line, cell_w)
    } else {
        hscroll.saturating_sub(by)
    }
}

/// A row as a note names it: its short sha, or under `istash` its message in
/// backticks, since `stash@{0}` names whichever stash is newest now.
pub fn row_label(stashes: bool, short: &str, subject: &str) -> (s: String)
    ensures
        s@ == if stashes {
            seq!['`'] + subject@ + seq!['`']
        } else {
            short@
        },
{
    if stashes {
        let tick = ['`'];
        let v = concat(&concat(&tick, &chars_of(subject)), &tick);
        assert(v@ =~= seq!['`'] + subject@ + seq!['`']);
        string_of(&v)
    } else {
        string_of(&chars_of(short))
    }
}

/// The diff `r` was pressed on, waited for while the commits stream back in.
pub struct Reopen {
    /// The commit it was of, and how a note names it.
    pub hash: String,
    pub label: String,
    pub path: String,
    /// Where its row stood, which is the row that replaces it if it is gone.
    pub row: usize,
    /// It never came back, so the row now in its place is what opens.
    pub gone: bool,
}

/// What `r` on a diff does on one frame while it waits.
pub enum Step {
    /// Not yet: the commits or the files are still arriving.
    Wait,
    /// The commits came back empty: back to the commits level, the reopen
    /// dropped, and this note up.
    Gone(String),
    /// The commit never came back: the cursor goes to this row, which stands
    /// in for it, and its files are asked for.
    Replace(usize),
    /// The file is not in the commit under the cursor: back to the commits
    /// level, the reopen dropped, and this note up.
    Missing(String),
    /// Open the file at this row of the files pane; with a note when the
    /// commit was replaced, else scrolled where the diff was.
    Open(usize, Option<String>),
}

/// A step as the contracts see it.
pub enum StepV {
    Wait,
    Gone(Seq<char>),
    Replace(usize),
    Missing(Seq<char>),
    Open(usize, Option<Seq<char>>),
}

pub open spec fn step_view(s: Step) -> StepV {
    match s {
        Step::Wait => StepV::Wait,
        Step::Gone(n) => StepV::Gone(n@),
        Step::Replace(r) => StepV::Replace(r),
        Step::Missing(n) => StepV::Missing(n@),
        Step::Open(at, n) => StepV::Open(
            at,
            match n {
                Some(t) => Some(t@),
                None => None,
            },
        ),
    }
}

/// The first position in `paths` holding `path`.
pub open spec fn first_at(paths: Seq<Seq<char>>, path: Seq<char>, i: int) -> bool {
    &&& 0 <= i < paths.len()
    &&& paths[i] == path
    &&& forall|j: int| 0 <= j < i ==> paths[j] != path
}

/// One frame of `r` on a diff. `restoring`: the commits pane is still to find
/// the commit again, while `loading` says they are still arriving and `len`
/// how many there are. `cursor`: the commit under the cursor, its hash and how
/// a note names it. `files_for`: the commit the files pane holds, `files_loading`
/// whether they are still arriving, `paths` the files it lists, in order.
pub open spec fn step_of(
    r: (Seq<char>, Seq<char>, Seq<char>, usize, bool),
    restoring: bool,
    loading: bool,
    len: usize,
    cursor: Option<(Seq<char>, Seq<char>)>,
    files_for: Seq<char>,
    files_loading: bool,
    paths: Seq<Seq<char>>,
) -> StepV {
    let (hash, label, path, row, gone) = r;
    if restoring {
        if loading {
            StepV::Wait
        } else if len == 0 {
            StepV::Gone(label + " is gone"@)
        } else {
            StepV::Replace(min(row as int, len - 1) as usize)
        }
    } else {
        match cursor {
            None => StepV::Wait,
            Some((h, now)) => if (!gone && h != hash) || files_for != h || files_loading {
                StepV::Wait
            } else if exists|i: int| first_at(paths, path, i) {
                let at = choose|i: int| first_at(paths, path, i);
                StepV::Open(
                    at as usize,
                    if gone {
                        Some(label + " is gone, so this is "@ + now)
                    } else {
                        None
                    },
                )
            } else if gone {
                StepV::Missing(
                    label + " is gone, and `"@ + path + "` is not in "@ + now,
                )
            } else {
                StepV::Missing("`"@ + path + "` is not in "@ + now + " any more"@)
            },
        }
    }
}

/// `r` on a diff, called every frame until it is done: once the commit it was
/// of has streamed in and its files are loaded, open the same file. A commit
/// that never turns up (amended, rebased, a stash dropped elsewhere) is
/// replaced by the row now in its place, and the note says so, rather than
/// showing another commit under the old one's name.
pub fn reopen_step(
    r: &Reopen,
    restoring: bool,
    loading: bool,
    len: usize,
    cursor: Option<(&str, &str)>,
    files_for: &str,
    files_loading: bool,
    paths: &[String],
) -> (s: Step)
    ensures
        step_view(s) == step_of(
            (r.hash@, r.label@, r.path@, r.row, r.gone),
            restoring,
            loading,
            len,
            match cursor {
                Some((h, n)) => Some((h@, n@)),
                None => None,
            },
            files_for@,
            files_loading,
            crate::text::string_views(paths@),
        ),
{
    if restoring {
        if loading {
            return Step::Wait;
        }
        if len == 0 {
            let v = concat(&chars_of(r.label.as_str()), &chars_of(" is gone"));
            return Step::Gone(string_of(&v));
        }
        let at = if r.row < len - 1 {
            r.row
        } else {
            len - 1
        };
        return Step::Replace(at);
    }
    let (h, now) = match cursor {
        None => {
            return Step::Wait;
        },
        Some(c) => c,
    };
    let hc = chars_of(h);
    let same_commit = same(&hc, &chars_of(r.hash.as_str()));
    if (!r.gone && !same_commit) || !same(&chars_of(files_for), &hc) || files_loading {
        return Step::Wait;
    }
    assert(!((!r.gone && h@ != r.hash@) || files_for@ != h@ || files_loading));
    let want = chars_of(r.path.as_str());
    let ghost ps = crate::text::string_views(paths@);
    let mut i: usize = 0;
    while i < paths.len()
        invariant
            i <= paths@.len(),
            ps == crate::text::string_views(paths@),
            want@ == r.path@,
            cursor == Some((h, now)),
            !restoring,
            !((!r.gone && h@ != r.hash@) || files_for@ != h@ || files_loading),
            forall|j: int| 0 <= j < i ==> ps[j] != r.path@,
        decreases paths@.len() - i,
    {
        if same(&chars_of(paths[i].as_str()), &want) {
            assert(first_at(ps, r.path@, i as int));
            assert forall|k: int| first_at(ps, r.path@, k) implies k == i by {
                if k < i {
                    assert(ps[k] != r.path@);
                } else if k > i {
                    assert(ps[i as int] == r.path@);
                }
            }
            assert(exists|k: int| first_at(ps, r.path@, k));
            assert((choose|k: int| first_at(ps, r.path@, k)) == i as int);
            let note = if r.gone {
                let v = concat(
                    &concat(&chars_of(r.label.as_str()), &chars_of(" is gone, so this is ")),
                    &chars_of(now),
                );
                Some(string_of(&v))
            } else {
                None
            };
            return Step::Open(i, note);
        }
        i = i + 1;
    }
    let label = chars_of(r.label.as_str());
    let path = chars_of(r.path.as_str());
    let nw = chars_of(now);
    if r.gone {
        let v = concat(
            &concat(&concat(&concat(&label, &chars_of(" is gone, and `")), &path), &chars_of(
                "` is not in ",
            )),
            &nw,
        );
        Step::Missing(string_of(&v))
    } else {
        let v = concat(
            &concat(&concat(&concat(&chars_of("`"), &path), &chars_of("` is not in ")), &nw),
            &chars_of(" any more"),
        );
        Step::Missing(string_of(&v))
    }
}

} // verus!
