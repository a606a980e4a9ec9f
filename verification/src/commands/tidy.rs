//! `slu tidy` and `slu itidy` - local branches whose upstream is gone (the
//! remote branch they tracked was deleted, e.g. a merged PR the remote
//! auto-deleted), which are the genuinely finished branches worth cleaning up.
//! Branches still alive on the remote, or that never had an upstream, are left
//! alone. What is decided here: which lines of `git for-each-ref` are such
//! branches, and what a key does in the interactive view.

use crate::git::load::{field_or_empty, field_string, fields, fields_in};
use crate::git::SEP;
use crate::text::{
    chars_of, concat, contains, contains_in, join, join_in, lines, lines_in, non_empty, same,
    seqs, string_of, string_views, strip_prefix, strip_prefix_in, trim, trim_in,
};
use crate::tui::input::{is_back, is_down, is_left, is_right, is_up, Key, Y_MOVE};
use vstd::prelude::*;

verus! {

/// A local branch whose upstream tracking branch has been deleted.
pub struct Gone {
    pub name: String,
    pub age: String,
    pub author: String,
}

pub open spec fn gone_view(g: Gone) -> (Seq<char>, Seq<char>, Seq<char>) {
    (g.name@, g.age@, g.author@)
}

pub open spec fn gone_views(v: Seq<Gone>) -> Seq<(Seq<char>, Seq<char>, Seq<char>)> {
    v.map_values(|g: Gone| gone_view(g))
}

/// A branch's name from its full ref: `refs/heads/` taken off, or the ref as
/// it is.
pub open spec fn head_name(refname: Seq<char>) -> Seq<char> {
    match strip_prefix(refname, "refs/heads/"@) {
        Some(n) => n,
        None => refname,
    }
}

/// One line of `%(refname) SEP %(upstream:track) SEP %(committerdate:relative)
/// SEP %(authorname)` as a gone branch: only when it has the track field and
/// that says `gone`, and its name is not `current`, the checked-out branch,
/// which cannot be deleted.
pub open spec fn gone_of(line: Seq<char>, current: Option<Seq<char>>) -> Option<
    (Seq<char>, Seq<char>, Seq<char>),
> {
    let f = fields(line);
    if f.len() < 2 || !contains(f[1], "gone"@) {
        None
    } else if current == Some(head_name(f[0])) {
        None
    } else {
        Some((head_name(f[0]), field_or_empty(f, 2), field_or_empty(f, 3)))
    }
}

/// The gone branches of a whole listing, in its order (newest activity first,
/// as it was asked for).
pub open spec fn gone_list(ls: Seq<Seq<char>>, current: Option<Seq<char>>) -> Seq<
    (Seq<char>, Seq<char>, Seq<char>),
>
    decreases ls.len(),
{
    if ls.len() == 0 {
        seq![]
    } else {
        let rest = gone_list(ls.drop_last(), current);
        match gone_of(ls.last(), current) {
            Some(g) => rest.push(g),
            None => rest,
        }
    }
}

fn parse_line(line: &str, current: Option<&str>) -> (r: Option<Gone>)
    ensures
        match r {
            Some(g) => gone_of(line@, opt(current)) == Some(gone_view(g)),
            None => gone_of(line@, opt(current)) is None,
        },
{
    let f = fields_in(line);
    let ghost fs = seqs(f@);
    if f.len() < 2 {
        return None;
    }
    assert(fs[1] == f@[1]@);
    assert(fs[0] == f@[0]@);
    if !contains_in(&f[1], &chars_of("gone")) {
        return None;
    }
    let name = match strip_prefix_in(&f[0], &chars_of("refs/heads/")) {
        Some(n) => n,
        None => crate::text::slice_vec(&f[0], 0, f[0].len()),
    };
    assert(name@ == head_name(fs[0])) by {
        assert(f@[0]@.subrange(0, f@[0]@.len() as int) =~= f@[0]@);
    }
    if let Some(cur) = current {
        if same(&name, &chars_of(cur)) {
            return None;
        }
    }
    Some(Gone { name: string_of(&name), age: field_string(&f, 2), author: field_string(&f, 3) })
}

pub open spec fn opt(o: Option<&str>) -> Option<Seq<char>> {
    match o {
        Some(s) => Some(s@),
        None => None,
    }
}

/// The gone branches in `git for-each-ref` output, the checked-out one
/// (`current`, when given) left out. `%(refname)` is cut to the plain branch
/// name here: `%(refname:short)` gives `heads/v0.2.20` when a tag of the same
/// name exists, which `git branch -D` cannot take.
pub fn parse_gone(out: &str, current: Option<&str>) -> (r: Vec<Gone>)
    ensures
        gone_views(r@) == gone_list(lines(out@), opt(current)),
{
    let ls = lines_in(&chars_of(out));
    let ghost lv = seqs(ls@);
    let mut r: Vec<Gone> = Vec::new();
    let mut k: usize = 0;
    while k < ls.len()
        invariant
            k <= ls@.len(),
            lv == seqs(ls@),
            lv == lines(out@),
            gone_views(r@) == gone_list(lv.take(k as int), opt(current)),
        decreases ls@.len() - k,
    {
        let line = string_of(&ls[k]);
        assert(lv.take(k + 1).drop_last() =~= lv.take(k as int));
        assert(lv.take(k + 1).last() == line@);
        let ghost before = gone_views(r@);
        match parse_line(line.as_str(), current) {
            Some(g) => {
                let ghost gv = gone_view(g);
                r.push(g);
                assert(gone_views(r@) =~= before.push(gv));
            },
            None => {},
        }
        k = k + 1;
    }
    assert(lv.take(ls@.len() as int) =~= lv);
    r
}

/// The remotes `git remote` names, one a line, blanks dropped.
pub fn remote_names(out: &str) -> (r: Vec<String>)
    ensures
        string_views(r@) == lines(out@).filter(|l: Seq<char>| l.len() > 0),
{
    let ls = non_empty(lines_in(&chars_of(out)));
    let mut r: Vec<String> = Vec::new();
    let mut k: usize = 0;
    while k < ls.len()
        invariant
            k <= ls@.len(),
            string_views(r@) == seqs(ls@).take(k as int),
        decreases ls@.len() - k,
    {
        let ghost before = string_views(r@);
        r.push(string_of(&ls[k]));
        assert(string_views(r@) =~= before.push(ls@[k as int]@));
        assert(seqs(ls@).take(k + 1) =~= seqs(ls@).take(k as int).push(seqs(ls@)[k as int]));
        k = k + 1;
    }
    assert(seqs(ls@).take(ls@.len() as int) =~= seqs(ls@));
    r
}

/// Whether a repo prunes on every fetch, from what `git config --get
/// fetch.prune` printed (`None` when it is not set): only `true` says so.
pub fn prunes_from(config: Option<&str>) -> (b: bool)
    ensures
        b == match config {
            Some(v) => trim(v@) == "true"@,
            None => false,
        },
{
    match config {
        Some(v) => same(&trim_in(&chars_of(v)), &chars_of("true")),
        None => false,
    }
}

// ── the interactive view ────────────────────────────────────────────────────

/// How long a success note sits in the footer, in milliseconds. A failure is
/// given no time: it stays until a keypress, because it is the only place
/// git's own words are shown.
pub const TIDY_NOTE_MS: u64 = 4000;

/// What a key does in `itidy`.
#[derive(Clone, Copy, PartialEq, Eq, Debug, Structural)]
pub enum TidyKey {
    /// The confirm's cursor on Yes (left).
    PickYes,
    /// The confirm's cursor on No (right).
    PickNo,
    /// Force-delete the branch under the cursor, and close the confirm.
    Delete,
    /// Close the confirm.
    Cancel,
    Quit,
    /// The cursor to this row.
    Move(usize),
    /// Open the confirm, on No.
    Ask,
    /// Prune every remote and read the list again.
    Prune,
    Nothing,
}

/// The answer to `code` with the confirm open on Yes or No (`confirm`) or
/// closed, the cursor at `sel` of `len` branches.
pub open spec fn tidy_key_of(code: Key, confirm: Option<bool>, sel: usize, len: usize) -> TidyKey {
    match confirm {
        Some(yes) => if code == Key::Char('h') || code == Key::Left {
            TidyKey::PickYes
        } else if code == Key::Char('l') || code == Key::Right {
            TidyKey::PickNo
        } else if code == Key::Char('y') || (code == Key::Enter && yes) {
            TidyKey::Delete
        } else if code == Key::Enter || code == Key::Esc || code == Key::Char('q') || code
            == Key::Char('n') {
            TidyKey::Cancel
        } else {
            TidyKey::Nothing
        },
        None => if code == Key::Char('q') || code == Key::Esc {
            TidyKey::Quit
        } else if (code == Key::Char('j') || code == Key::Down) && sel + 1 < len {
            TidyKey::Move((sel + 1) as usize)
        } else if (code == Key::Char('k') || code == Key::Up) && sel > 0 {
            TidyKey::Move((sel - 1) as usize)
        } else if code == Key::Enter && len > 0 {
            TidyKey::Ask
        } else if code == Key::Char('p') {
            TidyKey::Prune
        } else {
            TidyKey::Nothing
        },
    }
}

/// With the confirm open, Yes is on the left and No on the right, Enter acts on
/// the one picked and `y`/`n` are shortcuts; with it closed, j/k move, Enter
/// asks, `p` prunes, and `q` or Esc quit.
pub fn tidy_key(code: Key, confirm: Option<bool>, sel: usize, len: usize) -> (k: TidyKey)
    requires
        sel < usize::MAX,
    ensures
        k == tidy_key_of(code, confirm, sel, len),
{
    match confirm {
        Some(yes) => {
            if is_left(code) {
                TidyKey::PickYes
            } else if is_right(code) {
                TidyKey::PickNo
            } else if code == Key::Char('y') || (code == Key::Enter && yes) {
                TidyKey::Delete
            } else if code == Key::Enter || is_back(code) || code == Key::Char('q') || code
                == Key::Char('n') {
                TidyKey::Cancel
            } else {
                TidyKey::Nothing
            }
        },
        None => {
            if code == Key::Char('q') || is_back(code) {
                TidyKey::Quit
            } else if is_down(code) && sel + 1 < len {
                TidyKey::Move(sel + 1)
            } else if is_up(code) && sel > 0 {
                TidyKey::Move(sel - 1)
            } else if code == Key::Enter && len > 0 {
                TidyKey::Ask
            } else if code == Key::Char('p') {
                TidyKey::Prune
            } else {
                TidyKey::Nothing
            }
        },
    }
}

/// The list's title: where the cursor stands, or that there is nothing to do.
pub open spec fn tidy_title_of(sel: usize, len: usize) -> Seq<char> {
    if len == 0 {
        " no branches with a deleted upstream - nothing to tidy "@
    } else {
        " gone branches  "@ + crate::num::decimal((sel + 1) as nat) + "/"@ + crate::num::decimal(
            len as nat,
        ) + " "@
    }
}

pub fn tidy_title(sel: usize, len: usize) -> (s: String)
    requires
        sel < u64::MAX,
    ensures
        s@ == tidy_title_of(sel, len),
{
    if len == 0 {
        return " no branches with a deleted upstream - nothing to tidy ".to_owned();
    }
    let a = crate::num::decimal_of(sel as u64 + 1);
    let b = crate::num::decimal_of(len as u64);
    let v = concat(
        &concat(&concat(&concat(&chars_of(" gone branches  "), &a), &chars_of("/")), &b),
        &chars_of(" "),
    );
    string_of(&v)
}

/// The footer: the last action's result, `✓` when it worked and `✗` when it
/// did not, or else the keys.
pub open spec fn tidy_footer_of(msg: Option<(bool, Seq<char>)>) -> Seq<char> {
    match msg {
        Some((true, m)) => " ✓ "@ + m,
        Some((false, m)) => " ✗ "@ + m,
        None => " "@ + Y_MOVE@ + " move · enter delete · p prune · q quit"@,
    }
}

pub fn tidy_footer(msg: Option<(bool, &str)>) -> (s: String)
    ensures
        s@ == tidy_footer_of(
            match msg {
                Some((ok, m)) => Some((ok, m@)),
                None => None,
            },
        ),
{
    match msg {
        Some((true, m)) => string_of(&concat(&chars_of(" ✓ "), &chars_of(m))),
        Some((false, m)) => string_of(&concat(&chars_of(" ✗ "), &chars_of(m))),
        None => string_of(
            &concat(
                &concat(&chars_of(" "), &chars_of(Y_MOVE)),
                &chars_of(" move · enter delete · p prune · q quit"),
            ),
        ),
    }
}

} // verus!
