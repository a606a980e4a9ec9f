//! `slu iscan` - interactive history search. The query lives in the tool, not
//! in flags: terms typed into the bar are pickaxed across every branch of every
//! repo, and each matched line becomes a hit. What is decided here: how the bar
//! reads as terms, which terms a line holds, and which hits a term's tab keeps.

use crate::history::{
    commit_view, file_views, line_views, lowercase, to_lowercase, CommitMatch, CommitV, FileV,
    LineV,
};
use crate::text::{
    string_views, chars_of, concat, contains, contains_in, non_empty, seqs, split, split_in, string_of, trim,
    trim_in,
};
use crate::app::diff::{PAN_STEP, SCROLL_STEP};
use crate::text::{owned_pairs, pair_views, str_pair_views};
use crate::tui::input::{
    is_back, is_down, is_left, is_open, is_right, is_up, stepped, Key, CTRL_X_MOVE, CTRL_Y_MOVE,
    X_MOVE, Y_MOVE,
};
use crate::tui::{clamp_hscroll, min, mul_sat, sat_add16, sat_mul16, sat_sub, scroll_limit};
pub use crate::text::truncate;
use vstd::prelude::*;

verus! {

/// Shown as the bar's placeholder, and used when the bar is submitted empty:
/// the terms a secret audit usually wants.
pub const DEFAULT_TERMS: &'static str = "password,secret,token,api_key,passwd,credentials";

/// Shown for a file pickaxe flagged but whose diff has no visible +/- lines
/// (binary or encrypted blobs), mirroring what `slu scan` prints.
pub const BINARY_HIT: &'static str = "(binary or no visible diff)";

/// One finding: a single matched line in a file of a commit in a repo. Same
/// granularity `slu scan` counts, so the totals agree.
pub struct Hit {
    pub repo: String,
    pub repo_path: String,
    pub short: String,
    pub full: String,
    pub date: String,
    pub subject: String,
    pub file: String,
    pub line: String,
    pub is_add: bool,
    /// Indices into the submitted terms that this line contains. Empty means
    /// "unknown", which happens for binary hits; those show in every scope.
    pub matched: Vec<usize>,
}

impl Hit {
    /// Whether the tab `scope_idx` keeps this hit: tab 0 is every hit, tab `n`
    /// the hits of `terms[n - 1]`, and a hit whose terms are unknown shows in
    /// every tab, since hiding it could hide a real secret.
    pub fn in_scope(&self, scope_idx: usize) -> (b: bool)
        ensures
            b == (scope_idx == 0 || self.matched@.len() == 0 || self.matched@.contains(
                (scope_idx - 1) as usize,
            )),
    {
        if scope_idx == 0 || self.matched.len() == 0 {
            return true;
        }
        let want = scope_idx - 1;
        let mut i: usize = 0;
        while i < self.matched.len()
            invariant
                i <= self.matched@.len(),
                want == scope_idx - 1,
                forall|j: int| 0 <= j < i ==> self.matched@[j] != want,
            decreases self.matched@.len() - i,
        {
            if self.matched[i] == want {
                assert(self.matched@[i as int] == want);
                return true;
            }
            i = i + 1;
        }
        false
    }
}

/// The bar's text as terms: comma-separated, trimmed, empties dropped.
pub open spec fn terms_of(query: Seq<char>) -> Seq<Seq<char>> {
    split(query, seq![',']).map_values(|s: Seq<char>| trim(s)).filter(|s: Seq<char>| s.len() > 0)
}

/// Split the bar's text into terms: comma-separated, trimmed, empties dropped.
/// Only commas split, so a phrase stays one term.
pub fn parse_terms(query: &str) -> (r: Vec<String>)
    ensures
        string_views(r@) == terms_of(query@),
{
    let comma = [','];
    assert(comma@ =~= seq![',']);
    let parts = split_in(&chars_of(query), &comma);
    let ghost ps = seqs(parts@);
    let mut trimmed: Vec<Vec<char>> = Vec::new();
    let mut k: usize = 0;
    while k < parts.len()
        invariant
            k <= parts@.len(),
            ps == seqs(parts@),
            seqs(trimmed@) == ps.take(k as int).map_values(|s: Seq<char>| trim(s)),
        decreases parts@.len() - k,
    {
        let t = trim_in(&parts[k]);
        let ghost before = seqs(trimmed@);
        trimmed.push(t);
        assert(seqs(trimmed@) =~= before.push(trim(ps[k as int])));
        assert(ps.take(k + 1) =~= ps.take(k as int).push(ps[k as int]));
        assert(ps.take(k + 1).map_values(|s: Seq<char>| trim(s)) =~= ps.take(k as int).map_values(
            |s: Seq<char>| trim(s),
        ).push(trim(ps[k as int])));
        k = k + 1;
    }
    assert(ps.take(parts@.len() as int) =~= ps);
    let kept = non_empty(trimmed);
    let mut r: Vec<String> = Vec::new();
    let mut j: usize = 0;
    while j < kept.len()
        invariant
            j <= kept@.len(),
            string_views(r@) == seqs(kept@).take(j as int),
        decreases kept@.len() - j,
    {
        let ghost before = string_views(r@);
        r.push(string_of(&kept[j]));
        assert(string_views(r@) =~= before.push(kept@[j as int]@));
        assert(seqs(kept@).take(j + 1) =~= seqs(kept@).take(j as int).push(seqs(kept@)[j as int]));
        j = j + 1;
    }
    assert(seqs(kept@).take(kept@.len() as int) =~= seqs(kept@));
    r
}

/// The indices of the terms among the first `n` that `line` contains, both
/// lowercased.
pub open spec fn matched_terms(line: Seq<char>, terms: Seq<Seq<char>>, n: int) -> Seq<usize>
    decreases n,
{
    if n <= 0 {
        seq![]
    } else {
        let rest = matched_terms(line, terms, n - 1);
        if contains(lowercase(line), lowercase(terms[n - 1])) {
            rest.push((n - 1) as usize)
        } else {
            rest
        }
    }
}

/// Indices of the terms contained in `line`, case-insensitively. Pickaxe
/// merges per-term results by commit, so which term matched is recovered
/// here.
pub fn terms_in(line: &str, terms: &[String]) -> (r: Vec<usize>)
    ensures
        r@ == matched_terms(line@, string_views(terms@), terms@.len() as int),
{
    let hay = chars_of(to_lowercase(line).as_str());
    let ghost tv = string_views(terms@);
    let mut r: Vec<usize> = Vec::new();
    let mut k: usize = 0;
    while k < terms.len()
        invariant
            k <= terms@.len(),
            tv == string_views(terms@),
            hay@ == lowercase(line@),
            r@ == matched_terms(line@, tv, k as int),
        decreases terms@.len() - k,
    {
        let t = chars_of(to_lowercase(terms[k].as_str()).as_str());
        assert(tv[k as int] == terms@[k as int]@);
        if contains_in(&hay, &t) {
            r.push(k);
        }
        k = k + 1;
    }
    r
}

/// A hit as the contracts see it.
pub struct HitV {
    pub repo: Seq<char>,
    pub repo_path: Seq<char>,
    pub short: Seq<char>,
    pub full: Seq<char>,
    pub date: Seq<char>,
    pub subject: Seq<char>,
    pub file: Seq<char>,
    pub line: Seq<char>,
    pub is_add: bool,
    pub matched: Seq<usize>,
}

pub open spec fn hit_view(h: Hit) -> HitV {
    HitV {
        repo: h.repo@,
        repo_path: h.repo_path@,
        short: h.short@,
        full: h.full@,
        date: h.date@,
        subject: h.subject@,
        file: h.file@,
        line: h.line@,
        is_add: h.is_add,
        matched: h.matched@,
    }
}

pub open spec fn hit_views(v: Seq<Hit>) -> Seq<HitV> {
    v.map_values(|h: Hit| hit_view(h))
}

/// The hits of one file of a commit: one per matched line, the line trimmed
/// and tagged with the terms it holds, or a single binary hit when git showed
/// no line.
pub open spec fn file_hits(
    repo: Seq<char>,
    repo_path: Seq<char>,
    c: CommitV,
    f: FileV,
    terms: Seq<Seq<char>>,
) -> Seq<HitV> {
    let mk = |line: Seq<char>, is_add: bool, matched: Seq<usize>|
        HitV {
            repo,
            repo_path,
            short: c.short,
            full: c.full,
            date: c.date,
            subject: c.subject,
            file: f.0,
            line,
            is_add,
            matched,
        };
    if f.1.len() == 0 {
        seq![mk(BINARY_HIT@, false, seq![])]
    } else {
        f.1.map_values(
            |l: LineV| mk(trim(l.1), l.0, matched_terms(l.1, terms, terms.len() as int)),
        )
    }
}

/// Every hit of a commit, file by file.
pub open spec fn commit_hits(
    repo: Seq<char>,
    repo_path: Seq<char>,
    c: CommitV,
    files: Seq<FileV>,
    terms: Seq<Seq<char>>,
) -> Seq<HitV>
    decreases files.len(),
{
    if files.len() == 0 {
        seq![]
    } else {
        commit_hits(repo, repo_path, c, files.drop_last(), terms) + file_hits(
            repo,
            repo_path,
            c,
            files.last(),
            terms,
        )
    }
}

fn push_hit(out: &mut Vec<Hit>, h: Hit)
    ensures
        hit_views(final(out)@) == hit_views(old(out)@).push(hit_view(h)),
{
    let ghost before = hit_views(out@);
    let ghost hv = hit_view(h);
    out.push(h);
    assert(hit_views(out@) =~= before.push(hv));
}

/// Flatten one matching commit into its individual hits.
pub fn push_hits(
    out: &mut Vec<Hit>,
    repo: &str,
    repo_path: &str,
    c: &CommitMatch,
    terms: &[String],
)
    ensures
        hit_views(final(out)@) == hit_views(old(out)@) + commit_hits(
            repo@,
            repo_path@,
            commit_view(*c),
            commit_view(*c).files,
            string_views(terms@),
        ),
{
    let ghost start = hit_views(out@);
    let ghost cv = commit_view(*c);
    let ghost tv = string_views(terms@);
    let mut k: usize = 0;
    assert(start + commit_hits(repo@, repo_path@, cv, cv.files.take(0), tv) =~= start);
    while k < c.files.len()
        invariant
            k <= c.files@.len(),
            cv == commit_view(*c),
            cv.files == file_views(c.files@),
            tv == string_views(terms@),
            hit_views(out@) == start + commit_hits(
                repo@,
                repo_path@,
                cv,
                cv.files.take(k as int),
                tv,
            ),
        decreases c.files@.len() - k,
    {
        let f = &c.files[k];
        let ghost fv = cv.files[k as int];
        assert(cv.files.take(k + 1).drop_last() =~= cv.files.take(k as int));
        assert(cv.files.take(k + 1).last() == fv);
        assert(fv == (f.path@, line_views(f.lines@)));
        let ghost mid = hit_views(out@);
        let ghost want = file_hits(repo@, repo_path@, cv, fv, tv);
        if f.lines.len() == 0 {
            let h = Hit {
                repo: string_of(&chars_of(repo)),
                repo_path: string_of(&chars_of(repo_path)),
                short: c.short.clone(),
                full: c.full.clone(),
                date: c.date.clone(),
                subject: c.subject.clone(),
                file: f.path.clone(),
                line: string_of(&chars_of(BINARY_HIT)),
                is_add: false,
                matched: Vec::new(),
            };
            push_hit(out, h);
            assert(hit_views(out@) =~= mid + want);
        } else {
            let mut j: usize = 0;
            while j < f.lines.len()
                invariant
                    j <= f.lines@.len(),
                    f.lines@.len() > 0,
                    want == file_hits(repo@, repo_path@, cv, fv, tv),
                    fv == (f.path@, line_views(f.lines@)),
                    tv == string_views(terms@),
                    cv == commit_view(*c),
                    hit_views(out@) == mid + want.take(j as int),
                decreases f.lines@.len() - j,
            {
                let (is_add, line) = (f.lines[j].0, &f.lines[j].1);
                let matched = terms_in(line.as_str(), terms);
                let h = Hit {
                    repo: string_of(&chars_of(repo)),
                    repo_path: string_of(&chars_of(repo_path)),
                    short: c.short.clone(),
                    full: c.full.clone(),
                    date: c.date.clone(),
                    subject: c.subject.clone(),
                    file: f.path.clone(),
                    line: string_of(&trim_in(&chars_of(line.as_str()))),
                    is_add,
                    matched,
                };
                assert(line_views(f.lines@)[j as int] == (is_add, line@));
                assert(hit_view(h) == want[j as int]);
                push_hit(out, h);
                assert(want.take(j + 1) =~= want.take(j as int).push(want[j as int]));
                assert(hit_views(out@) =~= mid + want.take(j + 1));
                j = j + 1;
            }
            assert(want.take(f.lines@.len() as int) =~= want);
        }
        assert(hit_views(out@) =~= start + commit_hits(
            repo@,
            repo_path@,
            cv,
            cv.files.take(k + 1),
            tv,
        ));
        k = k + 1;
    }
    assert(cv.files.take(c.files@.len() as int) =~= cv.files);
}

/// The hits the tab `scope_idx` keeps, by index, in order.
pub open spec fn kept_hits(hits: Seq<HitV>, scope_idx: usize, n: int) -> Seq<usize>
    decreases n,
{
    if n <= 0 {
        seq![]
    } else {
        let rest = kept_hits(hits, scope_idx, n - 1);
        let h = hits[n - 1];
        if scope_idx == 0 || h.matched.len() == 0 || h.matched.contains((scope_idx - 1) as usize) {
            rest.push((n - 1) as usize)
        } else {
            rest
        }
    }
}

/// Re-filter for a term tab: the hits it keeps, and the cursor pulled back
/// onto the last of them when the list got shorter than where it stood.
pub fn rescope(hits: &[Hit], scope_idx: usize, sel: usize) -> (r: (Vec<usize>, usize))
    ensures
        r.0@ == kept_hits(hit_views(hits@), scope_idx, hits@.len() as int),
        r.1 == if sel >= r.0@.len() {
            if r.0@.len() > 0 {
                (r.0@.len() - 1) as usize
            } else {
                0
            }
        } else {
            sel
        },
{
    let ghost hv = hit_views(hits@);
    let mut visible: Vec<usize> = Vec::new();
    let mut k: usize = 0;
    while k < hits.len()
        invariant
            k <= hits@.len(),
            hv == hit_views(hits@),
            visible@ == kept_hits(hv, scope_idx, k as int),
            visible@.len() <= k,
        decreases hits@.len() - k,
    {
        assert(hv[k as int] == hit_view(hits@[k as int]));
        if hits[k].in_scope(scope_idx) {
            visible.push(k);
        }
        k = k + 1;
    }
    let n = visible.len();
    let s = if sel >= n {
        if n > 0 {
            n - 1
        } else {
            0
        }
    } else {
        sel
    };
    (visible, s)
}


/// The terms a submitted bar searches for: what it says, or, when it holds
/// nothing but blanks, the usual secret terms its placeholder shows.
pub fn scan_terms(query: &str) -> (r: Vec<String>)
    ensures
        string_views(r@) == if trim(query@).len() == 0 {
            terms_of(DEFAULT_TERMS@)
        } else {
            terms_of(query@)
        },
{
    if trim_in(&chars_of(query)).len() == 0 {
        parse_terms(DEFAULT_TERMS)
    } else {
        parse_terms(query)
    }
}

/// What a key does while the bar has focus: Enter runs the scan, Esc goes
/// back to the results when there are any and quits when there are none, and
/// anything else edits the text.
#[derive(Clone, Copy, PartialEq, Eq, Debug, Structural)]
pub enum EditKey {
    Submit,
    Browse,
    Quit,
    Field,
}

pub fn edit_key(code: Key, searched: bool) -> (k: EditKey)
    ensures
        k == if code == Key::Enter {
            EditKey::Submit
        } else if code == Key::Esc {
            if searched {
                EditKey::Browse
            } else {
                EditKey::Quit
            }
        } else {
            EditKey::Field
        },
{
    match code {
        Key::Enter => EditKey::Submit,
        Key::Esc => if searched {
            EditKey::Browse
        } else {
            EditKey::Quit
        },
        _ => EditKey::Field,
    }
}

/// What a key does while moving through the results.
#[derive(Clone, Copy, PartialEq, Eq, Debug, Structural)]
pub enum BrowseKey {
    Quit,
    /// Back into the bar to edit the terms.
    Edit,
    Scroll(u16),
    Pan(u16),
    Select(usize),
    Tab(usize),
    /// Open the hit under the cursor in the difftool.
    Difftool,
    Nothing,
}

/// The answer to `code` on the results: `q` or Esc quit, `/` or `i` go back
/// to the bar, Ctrl-j/k scroll the diff and Ctrl-h/l pan it, j/k move through
/// the `len` hits the tab keeps, h/l move between the tab of all hits and one
/// per term (`terms` of them), and Enter opens the hit under the cursor.
pub open spec fn browse_of(
    code: Key,
    ctrl: bool,
    steps: usize,
    sel: usize,
    len: usize,
    scope_idx: usize,
    terms: usize,
    scroll: u16,
    hscroll: u16,
    max_line: usize,
    cell_w: u16,
) -> BrowseKey {
    let by_rows = sat_mul16(SCROLL_STEP as int, steps as u16 as int);
    let by_cols = sat_mul16(PAN_STEP as int, steps as u16 as int);
    let down = code == Key::Char('j') || code == Key::Down;
    let up = code == Key::Char('k') || code == Key::Up;
    let left = code == Key::Char('h') || code == Key::Left;
    let right = code == Key::Char('l') || code == Key::Right;
    let to = if down {
        min(sel + steps, sat_sub(len as int, 1))
    } else {
        sat_sub(sel as int, steps as int)
    };
    if code == Key::Char('q') || code == Key::Esc {
        BrowseKey::Quit
    } else if code == Key::Char('/') || code == Key::Char('i') {
        BrowseKey::Edit
    } else if ctrl && down {
        BrowseKey::Scroll(sat_add16(scroll as int, by_rows as int))
    } else if ctrl && up {
        BrowseKey::Scroll(sat_sub(scroll as int, by_rows as int) as u16)
    } else if ctrl && right {
        BrowseKey::Pan(
            min(
                sat_add16(hscroll as int, by_cols as int) as int,
                scroll_limit(max_line as int, cell_w as int),
            ) as u16,
        )
    } else if ctrl && left {
        BrowseKey::Pan(sat_sub(hscroll as int, by_cols as int) as u16)
    } else if (down || up) && to != sel {
        BrowseKey::Select(to as usize)
    } else if !ctrl && left && scope_idx > 0 {
        BrowseKey::Tab((scope_idx - 1) as usize)
    } else if !ctrl && right && scope_idx < terms {
        BrowseKey::Tab((scope_idx + 1) as usize)
    } else if code == Key::Enter && sel < len {
        BrowseKey::Difftool
    } else {
        BrowseKey::Nothing
    }
}

pub fn browse_key(
    code: Key,
    ctrl: bool,
    steps: usize,
    sel: usize,
    len: usize,
    scope_idx: usize,
    terms: usize,
    scroll: u16,
    hscroll: u16,
    max_line: usize,
    cell_w: u16,
) -> (k: BrowseKey)
    ensures
        k == browse_of(
            code,
            ctrl,
            steps,
            sel,
            len,
            scope_idx,
            terms,
            scroll,
            hscroll,
            max_line,
            cell_w,
        ),
{
    let n = steps as u16;
    let by_rows = mul_sat(SCROLL_STEP, n);
    let by_cols = mul_sat(PAN_STEP, n);
    let down = is_down(code);
    let up = is_up(code);
    let left = is_left(code);
    let right = is_right(code);
    if code == Key::Char('q') || is_back(code) {
        BrowseKey::Quit
    } else if code == Key::Char('/') || code == Key::Char('i') {
        BrowseKey::Edit
    } else if ctrl && down {
        BrowseKey::Scroll(scroll.saturating_add(by_rows))
    } else if ctrl && up {
        BrowseKey::Scroll(scroll.saturating_sub(by_rows))
    } else if ctrl && right {
        BrowseKey::Pan(clamp_hscroll(hscroll.saturating_add(by_cols), max_line, cell_w))
    } else if ctrl && left {
        BrowseKey::Pan(hscroll.saturating_sub(by_cols))
    } else if (down || up) && stepped(sel, len, down, steps) != sel {
        BrowseKey::Select(stepped(sel, len, down, steps))
    } else if !ctrl && left && scope_idx > 0 {
        BrowseKey::Tab(scope_idx - 1)
    } else if !ctrl && right && scope_idx < terms {
        BrowseKey::Tab(scope_idx + 1)
    } else if is_open(code) && sel < len {
        BrowseKey::Difftool
    } else {
        BrowseKey::Nothing
    }
}

/// Every key the results answer to, for the box `:help` opens.
pub open spec fn help_of() -> Seq<(Seq<char>, Seq<char>)> {
    seq![
        (Y_MOVE@, "move through the hits (hold to speed up)"@),
        (X_MOVE@, "switch tab: all hits, or one term's"@),
        (CTRL_Y_MOVE@, "scroll the diff"@),
        (CTRL_X_MOVE@, "pan it sideways"@),
        ("/"@, "edit the terms"@),
        ("enter"@, "open the file in your git difftool"@),
        ("q"@, "quit"@),
    ]
}

pub fn help() -> (r: Vec<(String, String)>)
    ensures
        pair_views(r@) == help_of(),
{
    let rows = [
        (Y_MOVE, "move through the hits (hold to speed up)"),
        (X_MOVE, "switch tab: all hits, or one term's"),
        (CTRL_Y_MOVE, "scroll the diff"),
        (CTRL_X_MOVE, "pan it sideways"),
        ("/", "edit the terms"),
        ("enter", "open the file in your git difftool"),
        ("q", "quit"),
    ];
    let r = owned_pairs(&rows);
    assert(str_pair_views(rows@) =~= help_of());
    r
}

/// Who gets a key in the scan view. Ctrl-C quits whatever is open; an open
/// box takes every other key; then the `:` line while it is open; `:` opens it
/// only while browsing, since in the search bar it is a letter; then the bar
/// while it is being typed in, else the results.
#[derive(Clone, Copy, PartialEq, Eq, Debug, Structural)]
pub enum ScanOwner {
    Quit,
    Modal,
    CommandLine,
    OpenCommand,
    Edit,
    Browse,
}

pub open spec fn scan_owner_of(code: Key, ctrl: bool, modal: bool, command: bool, editing: bool) -> ScanOwner {
    if ctrl && code == Key::Char('c') {
        ScanOwner::Quit
    } else if modal {
        ScanOwner::Modal
    } else if command {
        ScanOwner::CommandLine
    } else if !editing && code == Key::Char(':') {
        ScanOwner::OpenCommand
    } else if editing {
        ScanOwner::Edit
    } else {
        ScanOwner::Browse
    }
}

/// Who gets a key in the scan view (see `ScanOwner`). Any key that is not
/// Ctrl-C and finds no box open also clears the note on the footer.
pub fn scan_key_owner(code: Key, ctrl: bool, modal: bool, command: bool, editing: bool) -> (o: ScanOwner)
    ensures
        o == scan_owner_of(code, ctrl, modal, command, editing),
{
    if ctrl && code == Key::Char('c') {
        ScanOwner::Quit
    } else if modal {
        ScanOwner::Modal
    } else if command {
        ScanOwner::CommandLine
    } else if !editing && code == Key::Char(':') {
        ScanOwner::OpenCommand
    } else if editing {
        ScanOwner::Edit
    } else {
        ScanOwner::Browse
    }
}

} // verus!
