//! Side-by-side diff layout: what `git show` printed, read into full-width
//! header rows and left/right pairs with their line numbers, and the column
//! arithmetic that lays the pairs out at a width and a pan. Colouring the code
//! is `shade`'s: one highlighter per side per file.

use crate::num::{digits, num_digits, parse_unsigned, parse_usize};
use crate::text::{
    chars_of, lines, lines_in, seqs, slice_vec, split, split_in, starts_with, starts_with_in,
    string_of, strip_prefix,
};
use crate::tui::{max, min, sat_sub};
use vstd::prelude::*;

verus! {

/// Longest content line of a raw diff (minus its +/-/space prefix), for
/// clamping horizontal scroll.
pub open spec fn max_width_of(ls: Seq<Seq<char>>) -> int
    decreases ls.len(),
{
    if ls.len() == 0 {
        0
    } else {
        max(max_width_of(ls.drop_last()), sat_sub(ls.last().len() as int, 1))
    }
}

proof fn lemma_max_width_bound(ls: Seq<Seq<char>>, k: int, b: int)
    requires
        0 <= k <= ls.len(),
        forall|j: int| 0 <= j < ls.len() ==> ls[j].len() <= b,
        b >= 0,
    ensures
        max_width_of(ls.take(k)) <= b,
    decreases k,
{
    if k > 0 {
        assert(ls.take(k).drop_last() =~= ls.take(k - 1));
        lemma_max_width_bound(ls, k - 1, b);
    }
}

pub fn max_line_width(raw: &str) -> (w: usize)
    ensures
        w == max_width_of(lines(raw@)),
{
    let ls = lines_in(&chars_of(raw));
    let ghost all = seqs(ls@);
    let mut w: usize = 0;
    let mut k: usize = 0;
    while k < ls.len()
        invariant
            k <= ls@.len(),
            all == seqs(ls@),
            w == max_width_of(all.take(k as int)),
        decreases ls@.len() - k,
    {
        assert(all.take(k + 1).drop_last() =~= all.take(k as int));
        assert(all.take(k + 1).last() == ls@[k as int]@);
        let n = ls[k].len();
        let c = if n > 0 {
            n - 1
        } else {
            0
        };
        if c > w {
            w = c;
        }
        k = k + 1;
    }
    assert(all.take(ls@.len() as int) =~= all);
    w
}

/// `start[,count]`: the count is 1 when it is left out; neither may be
/// anything but a number.
pub open spec fn hunk_pair(s: Seq<char>) -> Option<(nat, nat)> {
    let f = split(s, seq![',']);
    match parse_unsigned(f[0], usize::MAX as nat) {
        Some(start) => Some(
            (
                start,
                if f.len() >= 2 {
                    match parse_unsigned(f[1], usize::MAX as nat) {
                        Some(c) => c,
                        None => 1,
                    }
                } else {
                    1
                },
            ),
        ),
        None => None,
    }
}

pub fn parse_pair(s: &[char]) -> (r: Option<(usize, usize)>)
    ensures
        match r {
            Some((a, b)) => hunk_pair(s@) == Some((a as nat, b as nat)),
            None => hunk_pair(s@) is None,
        },
{
    let comma = [','];
    assert(comma@ =~= seq![',']);
    let f = split_in(s, &comma);
    proof {
        crate::text::lemma_split_nonempty(s@, seq![',']);
    }
    assert(seqs(f@)[0] == f@[0]@);
    let start = match parse_usize(&f[0]) {
        Some(v) => v,
        None => {
            return None;
        },
    };
    let count = if f.len() >= 2 {
        assert(seqs(f@)[1] == f@[1]@);
        match parse_usize(&f[1]) {
            Some(c) => c,
            None => 1,
        }
    } else {
        1
    };
    Some((start, count))
}

/// A hunk header `@@ -a,b +c,d @@` read as `(a, b, c, d)`; the counts `b` and
/// `d` are 1 when left out (`@@ -a +c @@`).
pub open spec fn hunk_of(line: Seq<char>) -> Option<(nat, nat, nat, nat)> {
    match strip_prefix(line, "@@ "@) {
        Some(rest) => {
            let body = split(rest, " @@"@)[0];
            let parts = split(body, seq![' ']);
            if parts.len() >= 2 {
                match (strip_prefix(parts[0], seq!['-']), strip_prefix(parts[1], seq!['+'])) {
                    (Some(o), Some(n)) => match (hunk_pair(o), hunk_pair(n)) {
                        (Some((a, b)), Some((c, d))) => Some((a, b, c, d)),
                        _ => None,
                    },
                    _ => None,
                }
            } else {
                None
            }
        },
        None => None,
    }
}

pub fn parse_hunk(line: &[char]) -> (r: Option<(usize, usize, usize, usize)>)
    ensures
        match r {
            Some((a, b, c, d)) => hunk_of(line@) == Some((a as nat, b as nat, c as nat, d as nat)),
            None => hunk_of(line@) is None,
        },
{
    let rest = match crate::text::strip_prefix_in(line, &chars_of("@@ ")) {
        Some(r) => r,
        None => {
            return None;
        },
    };
    let close = chars_of(" @@");
    proof {
        reveal_strlit(" @@");
    }
    let pieces = split_in(&rest, &close);
    proof {
        crate::text::lemma_split_nonempty(rest@, " @@"@);
    }
    assert(seqs(pieces@)[0] == pieces@[0]@);
    let sp = [' '];
    assert(sp@ =~= seq![' ']);
    let parts = split_in(&pieces[0], &sp);
    if parts.len() < 2 {
        return None;
    }
    assert(seqs(parts@)[0] == parts@[0]@);
    assert(seqs(parts@)[1] == parts@[1]@);
    let minus = ['-'];
    assert(minus@ =~= seq!['-']);
    let plus = ['+'];
    assert(plus@ =~= seq!['+']);
    let o = match crate::text::strip_prefix_in(&parts[0], &minus) {
        Some(x) => x,
        None => {
            return None;
        },
    };
    let n = match crate::text::strip_prefix_in(&parts[1], &plus) {
        Some(x) => x,
        None => {
            return None;
        },
    };
    match (parse_pair(&o), parse_pair(&n)) {
        (Some((a, b)), Some((c, d))) => Some((a, b, c, d)),
        _ => None,
    }
}

/// A line of a patch that only describes it: index, file names, modes,
/// renames, the missing-newline note.
pub open spec fn is_meta_line(line: Seq<char>) -> bool {
    starts_with(line, "index "@) || starts_with(line, "--- "@) || starts_with(line, "+++ "@)
        || starts_with(line, "new file"@) || starts_with(line, "deleted file"@) || starts_with(
        line,
        "similarity "@,
    ) || starts_with(line, "rename "@) || starts_with(line, "\\ No newline"@)
}

pub fn is_meta(line: &[char]) -> (b: bool)
    ensures
        b == is_meta_line(line@),
{
    starts_with_in(line, &chars_of("index ")) || starts_with_in(line, &chars_of("--- "))
        || starts_with_in(line, &chars_of("+++ ")) || starts_with_in(line, &chars_of("new file"))
        || starts_with_in(line, &chars_of("deleted file")) || starts_with_in(
        line,
        &chars_of("similarity "),
    ) || starts_with_in(line, &chars_of("rename ")) || starts_with_in(
        line,
        &chars_of("\\ No newline"),
    )
}

/// The largest line number any hunk of the diff reaches, at least 1.
pub open spec fn hunk_reach(ls: Seq<Seq<char>>) -> int
    decreases ls.len(),
{
    if ls.len() == 0 {
        1
    } else {
        let m = hunk_reach(ls.drop_last());
        let l = ls.last();
        if starts_with(l, "@@"@) {
            match hunk_of(l) {
                Some((a, b, c, d)) => max(max(m, (a + b) as int), (c + d) as int),
                None => m,
            }
        } else {
            m
        }
    }
}

proof fn lemma_hunk_reach_grows(ls: Seq<Seq<char>>, k: int)
    requires
        0 <= k <= ls.len(),
    ensures
        hunk_reach(ls.take(k)) <= hunk_reach(ls),
    decreases ls.len() - k,
{
    if k < ls.len() {
        lemma_hunk_reach_grows(ls, k + 1);
        assert(ls.take(k + 1).drop_last() =~= ls.take(k));
    } else {
        assert(ls.take(k) =~= ls);
    }
}

/// Column width for the line-number gutter: digits of the largest line number
/// any hunk reaches, at least 3.
pub fn gutter_width(raw: &str) -> (g: usize)
    requires
        hunk_reach(lines(raw@)) <= usize::MAX,
    ensures
        g == max(num_digits(hunk_reach(lines(raw@)) as nat) as int, 3),
{
    let ls = lines_in(&chars_of(raw));
    let ghost all = seqs(ls@);
    let mut m: usize = 1;
    let mut k: usize = 0;
    let at = chars_of("@@");
    while k < ls.len()
        invariant
            k <= ls@.len(),
            all == seqs(ls@),
            all == lines(raw@),
            at@ == "@@"@,
            hunk_reach(all) <= usize::MAX,
            m == hunk_reach(all.take(k as int)),
        decreases ls@.len() - k,
    {
        assert(all.take(k + 1).drop_last() =~= all.take(k as int));
        assert(all.take(k + 1).last() == ls@[k as int]@);
        proof {
            lemma_hunk_reach_grows(all, k + 1);
        }
        if starts_with_in(&ls[k], &at) {
            match parse_hunk(&ls[k]) {
                Some((a, b, c, d)) => {
                    assert(a + b <= hunk_reach(all.take(k + 1)));
                    assert(c + d <= hunk_reach(all.take(k + 1)));
                    if a + b > m {
                        m = a + b;
                    }
                    if c + d > m {
                        m = c + d;
                    }
                },
                None => {},
            }
        }
        k = k + 1;
    }
    assert(all.take(ls@.len() as int) =~= all);
    let d = digits(m);
    if d < 3 {
        3
    } else {
        d
    }
}

/// Whether the largest line number any hunk reaches fits a `usize`, so that
/// `gutter_width` may be called on it.
pub fn hunk_reach_fits(raw: &str) -> (b: bool)
    ensures
        b == (hunk_reach(lines(raw@)) <= usize::MAX),
{
    let ls = lines_in(&chars_of(raw));
    let ghost all = seqs(ls@);
    let mut m: usize = 1;
    let mut k: usize = 0;
    let at = chars_of("@@");
    while k < ls.len()
        invariant
            k <= ls@.len(),
            all == seqs(ls@),
            all == lines(raw@),
            at@ == "@@"@,
            m == hunk_reach(all.take(k as int)),
        decreases ls@.len() - k,
    {
        assert(all.take(k + 1).drop_last() =~= all.take(k as int));
        assert(all.take(k + 1).last() == ls@[k as int]@);
        proof {
            lemma_hunk_reach_grows(all, k + 1);
        }
        if starts_with_in(&ls[k], &at) {
            match parse_hunk(&ls[k]) {
                Some((a, b, c, d)) => {
                    if a > usize::MAX - b || c > usize::MAX - d {
                        return false;
                    }
                    if a + b > m {
                        m = a + b;
                    }
                    if c + d > m {
                        m = c + d;
                    }
                },
                None => {},
            }
        }
        k = k + 1;
    }
    assert(all.take(ls@.len() as int) =~= all);
    true
}

/// The extension a file's syntax is looked up by: what follows its last `.`,
/// when it has one.
pub open spec fn extension_of(path: Seq<char>) -> Option<Seq<char>> {
    let e = crate::text::after_last(path, '.');
    if e == path {
        None
    } else {
        Some(e)
    }
}

pub fn extension(path: &str) -> (r: Option<String>)
    ensures
        match r {
            Some(e) => extension_of(path@) == Some(e@),
            None => extension_of(path@) is None,
        },
{
    let p = chars_of(path);
    let e = crate::text::after_last_in(&p, '.');
    if crate::text::same(&e, &p) {
        None
    } else {
        Some(string_of(&e))
    }
}

/// Visible content columns per side at total pane `width`, gutters and the
/// ` │ ` separator taken off first: what horizontal scroll is clamped to, so
/// panning stops where what is drawn ends.
pub open spec fn cell_width_of(gutter_w: int, width: int) -> int {
    max(sat_sub(width, 2 * gutter_w + 5) / 2, 1)
}

pub fn cell_width(gutter_w: usize, width: u16) -> (w: u16)
    requires
        2 * gutter_w + 5 <= usize::MAX,
    ensures
        w == cell_width_of(gutter_w as int, width as int),
{
    let avail = (width as usize).saturating_sub(2 * gutter_w + 5);
    let half = avail / 2;
    if half < 1 {
        1
    } else {
        half as u16
    }
}

/// The two sides' widths at total pane `width`: the left gets half of what the
/// gutters and the separator leave, the right the rest, each at least one.
pub fn side_widths(gutter_w: usize, width: u16) -> (r: (usize, usize))
    requires
        2 * gutter_w + 5 <= usize::MAX,
    ensures
        ({
            let avail = sat_sub(width as int, 2 * gutter_w + 5);
            &&& r.0 == max(avail / 2, 1)
            &&& r.1 == max(sat_sub(avail, r.0 as int), 1)
        }),
{
    let avail = (width as usize).saturating_sub(2 * gutter_w + 5);
    let lw = if avail / 2 < 1 {
        1
    } else {
        avail / 2
    };
    let rest = avail.saturating_sub(lw);
    let rw = if rest < 1 {
        1
    } else {
        rest
    };
    (lw, rw)
}

/// A line number right-aligned in `g` columns and a space, or `g + 1` spaces
/// beside a row with no line on that side.
pub open spec fn gutter_text_of(num: Option<nat>, g: nat) -> Seq<char> {
    match num {
        Some(n) => crate::text::spaces(sat_sub(g as int, crate::num::decimal(n).len() as int) as nat)
            + crate::num::decimal(n) + seq![' '],
        None => crate::text::spaces(g + 1),
    }
}

fn spaces_in(n: usize) -> (v: Vec<char>)
    ensures
        v@ == crate::text::spaces(n as nat),
{
    let mut v: Vec<char> = Vec::new();
    while v.len() < n
        invariant
            v@ == crate::text::spaces(v@.len() as nat),
            v@.len() <= n,
        decreases n - v@.len(),
    {
        v.push(' ');
        assert(v@ =~= crate::text::spaces(v@.len() as nat));
    }
    v
}

pub fn gutter_text(num: Option<usize>, g: usize) -> (s: String)
    requires
        g < usize::MAX,
    ensures
        s@ == gutter_text_of(
            match num {
                Some(n) => Some(n as nat),
                None => None,
            },
            g as nat,
        ),
{
    match num {
        Some(n) => {
            let d = crate::num::decimal_of(n as u64);
            let pad = spaces_in(g.saturating_sub(d.len()));
            let a = crate::text::concat(&pad, &d);
            let sp = [' '];
            assert(sp@ =~= seq![' ']);
            string_of(&crate::text::concat(&a, &sp))
        },
        None => string_of(&spaces_in(g + 1)),
    }
}


// ── reading a diff into rows ────────────────────────────────────────────────

/// One row of a laid-out diff: a full-width line, or a side-by-side pair whose
/// sides each hold a line number and the code after its `-`/`+`/space.
pub enum Row {
    /// `diff --git a/<path> b/<path>`: a new file, whose two sides get fresh
    /// highlighters chosen by `path`.
    File { line: String, path: String },
    /// A line before the first file, such as the commit header.
    Plain(String),
    /// `@@ -a,b +c,d @@`.
    Hunk(String),
    /// A line inside a patch that is not code: index, modes, renames, anything
    /// else git adds.
    Dim(String),
    /// A context line on both sides (`changed` false), or removed and added
    /// lines paired up in order (`changed` true), a side with fewer left
    /// blank.
    Pair { left: Option<(usize, String)>, right: Option<(usize, String)>, changed: bool },
}

/// A row as the contracts see it.
pub enum RowV {
    File(Seq<char>, Seq<char>),
    Plain(Seq<char>),
    Hunk(Seq<char>),
    Dim(Seq<char>),
    Pair(Option<(int, Seq<char>)>, Option<(int, Seq<char>)>, bool),
}

pub open spec fn side_view(s: Option<(usize, String)>) -> Option<(int, Seq<char>)> {
    match s {
        Some((n, t)) => Some((n as int, t@)),
        None => None,
    }
}

pub open spec fn row_view(r: Row) -> RowV {
    match r {
        Row::File { line, path } => RowV::File(line@, path@),
        Row::Plain(t) => RowV::Plain(t@),
        Row::Hunk(t) => RowV::Hunk(t@),
        Row::Dim(t) => RowV::Dim(t@),
        Row::Pair { left, right, changed } => RowV::Pair(side_view(left), side_view(right), changed),
    }
}

pub open spec fn row_views(v: Seq<Row>) -> Seq<RowV> {
    v.map_values(|r: Row| row_view(r))
}

/// Removed and added lines waiting for their pairs, paired in order.
pub open spec fn pairs_of(rem: Seq<(int, Seq<char>)>, add: Seq<(int, Seq<char>)>) -> Seq<RowV> {
    Seq::new(
        max(rem.len() as int, add.len() as int) as nat,
        |i: int|
            RowV::Pair(
                if i < rem.len() {
                    Some(rem[i])
                } else {
                    None
                },
                if i < add.len() {
                    Some(add[i])
                } else {
                    None
                },
                true,
            ),
    )
}

/// What reading a diff has produced so far: the rows, whether a file has
/// started, the next line number on each side, the changed lines not yet
/// paired, and the highest line number any side has moved to.
pub struct LayoutV {
    pub rows: Seq<RowV>,
    pub in_patch: bool,
    pub old_ln: int,
    pub new_ln: int,
    pub rem: Seq<(int, Seq<char>)>,
    pub add: Seq<(int, Seq<char>)>,
    pub peak: int,
}

pub open spec fn flushed(st: LayoutV) -> LayoutV {
    LayoutV { rows: st.rows + pairs_of(st.rem, st.add), rem: seq![], add: seq![], ..st }
}

/// What follows the last ` b/` of a `diff --git` header, or all of it.
pub open spec fn header_path(rest: Seq<char>) -> Seq<char> {
    if exists|i: int| crate::history::is_last_b(rest, i) {
        rest.skip((choose|i: int| crate::history::is_last_b(rest, i)) + 3)
    } else {
        rest
    }
}

/// How one line of `git show` output changes what has been read.
pub open spec fn layout_step(st: LayoutV, line: Seq<char>) -> LayoutV {
    match strip_prefix(line, "diff --git "@) {
        Some(rest) => {
            let f = flushed(st);
            LayoutV {
                rows: f.rows.push(RowV::File(line, header_path(rest))),
                in_patch: true,
                ..f
            }
        },
        None => if !st.in_patch {
            if line.len() == 0 {
                st
            } else {
                LayoutV { rows: st.rows.push(RowV::Plain(line)), ..st }
            }
        } else if starts_with(line, "@@"@) {
            let f = flushed(st);
            let (o, n) = match hunk_of(line) {
                Some((a, _, c, _)) => (a as int, c as int),
                None => (f.old_ln, f.new_ln),
            };
            LayoutV { rows: f.rows.push(RowV::Hunk(line)), old_ln: o, new_ln: n, ..f }
        } else if is_meta_line(line) {
            let f = flushed(st);
            LayoutV { rows: f.rows.push(RowV::Dim(line)), ..f }
        } else if starts_with(line, seq!['-']) {
            LayoutV {
                rem: st.rem.push((st.old_ln, line.drop_first())),
                old_ln: st.old_ln + 1,
                peak: max(st.peak, st.old_ln + 1),
                ..st
            }
        } else if starts_with(line, seq!['+']) {
            LayoutV {
                add: st.add.push((st.new_ln, line.drop_first())),
                new_ln: st.new_ln + 1,
                peak: max(st.peak, st.new_ln + 1),
                ..st
            }
        } else if starts_with(line, seq![' ']) {
            let f = flushed(st);
            LayoutV {
                rows: f.rows.push(
                    RowV::Pair(
                        Some((f.old_ln, line.drop_first())),
                        Some((f.new_ln, line.drop_first())),
                        false,
                    ),
                ),
                old_ln: f.old_ln + 1,
                new_ln: f.new_ln + 1,
                peak: max(max(f.peak, f.old_ln + 1), f.new_ln + 1),
                ..f
            }
        } else {
            let f = flushed(st);
            LayoutV { rows: f.rows.push(RowV::Dim(line)), ..f }
        },
    }
}

pub open spec fn layout_fold(ls: Seq<Seq<char>>) -> LayoutV
    decreases ls.len(),
{
    if ls.len() == 0 {
        LayoutV { rows: seq![], in_patch: false, old_ln: 0, new_ln: 0, rem: seq![], add: seq![], peak: 0 }
    } else {
        layout_step(layout_fold(ls.drop_last()), ls.last())
    }
}

/// The rows of a diff as `git show` printed it.
pub open spec fn layout_of(raw: Seq<char>) -> Seq<RowV> {
    flushed(layout_fold(lines(raw))).rows
}

/// The highest line number reading the diff moves a side to.
pub open spec fn layout_peak(raw: Seq<char>) -> int {
    layout_fold(lines(raw)).peak
}

proof fn lemma_peak_grows(ls: Seq<Seq<char>>, k: int)
    requires
        0 <= k <= ls.len(),
    ensures
        layout_fold(ls.take(k)).peak <= layout_fold(ls).peak,
    decreases ls.len() - k,
{
    if k < ls.len() {
        lemma_peak_grows(ls, k + 1);
        assert(ls.take(k + 1).drop_last() =~= ls.take(k));
    } else {
        assert(ls.take(k) =~= ls);
    }
}

pub open spec fn side_views(v: Seq<(usize, String)>) -> Seq<(int, Seq<char>)> {
    v.map_values(|x: (usize, String)| (x.0 as int, x.1@))
}

fn push_row(rows: &mut Vec<Row>, r: Row)
    ensures
        row_views(final(rows)@) == row_views(old(rows)@).push(row_view(r)),
{
    let ghost before = row_views(rows@);
    let ghost rv = row_view(r);
    rows.push(r);
    assert(row_views(rows@) =~= before.push(rv));
}

fn push_side(v: &mut Vec<(usize, String)>, n: usize, t: String)
    ensures
        side_views(final(v)@) == side_views(old(v)@).push((n as int, t@)),
{
    let ghost before = side_views(v@);
    let ghost tv = t@;
    v.push((n, t));
    assert(side_views(v@) =~= before.push((n as int, tv)));
}

fn copy_side(v: &Vec<(usize, String)>, i: usize) -> (r: Option<(usize, String)>)
    ensures
        side_view(r) == if i < v@.len() {
            Some(side_views(v@)[i as int])
        } else {
            None
        },
{
    if i < v.len() {
        Some((v[i].0, v[i].1.clone()))
    } else {
        None
    }
}

/// Pair up the changed lines waiting into side-by-side rows.
fn flush_pairs(rows: &mut Vec<Row>, rem: &mut Vec<(usize, String)>, add: &mut Vec<(usize, String)>)
    ensures
        row_views(final(rows)@) == row_views(old(rows)@) + pairs_of(
            side_views(old(rem)@),
            side_views(old(add)@),
        ),
        final(rem)@.len() == 0,
        final(add)@.len() == 0,
{
    let ghost start = row_views(rows@);
    let ghost rv = side_views(rem@);
    let ghost av = side_views(add@);
    let n = if rem.len() > add.len() {
        rem.len()
    } else {
        add.len()
    };
    let mut i: usize = 0;
    while i < n
        invariant
            i <= n,
            n == max(rem@.len() as int, add@.len() as int),
            rv == side_views(rem@),
            av == side_views(add@),
            row_views(rows@) == start + pairs_of(rv, av).take(i as int),
        decreases n - i,
    {
        let left = copy_side(rem, i);
        let right = copy_side(add, i);
        let ghost before = row_views(rows@);
        push_row(rows, Row::Pair { left, right, changed: true });
        assert(pairs_of(rv, av).take(i + 1) =~= pairs_of(rv, av).take(i as int).push(
            pairs_of(rv, av)[i as int],
        ));
        assert(row_views(rows@) =~= start + pairs_of(rv, av).take(i + 1));
        i = i + 1;
    }
    assert(pairs_of(rv, av).take(n as int) =~= pairs_of(rv, av));
    rem.clear();
    add.clear();
}

/// Read `git show` output into rows: a header row per file, hunk header and
/// non-code line, and for the code, context lines side by side and each run of
/// removed and added lines paired up in order, every side numbered from its
/// hunk header. Blank lines before the first file are dropped.
pub fn layout_diff(raw: &str) -> (rows: Vec<Row>)
    requires
        layout_peak(raw@) <= usize::MAX,
    ensures
        row_views(rows@) == layout_of(raw@),
{
    let ls = lines_in(&chars_of(raw));
    let ghost all = seqs(ls@);
    let header = chars_of("diff --git ");
    let at = chars_of("@@");
    let mut rows: Vec<Row> = Vec::new();
    let mut in_patch = false;
    let mut old_ln: usize = 0;
    let mut new_ln: usize = 0;
    let mut rem: Vec<(usize, String)> = Vec::new();
    let mut add: Vec<(usize, String)> = Vec::new();
    let mut k: usize = 0;
    assert(row_views(rows@) =~= Seq::<RowV>::empty());
    assert(side_views(rem@) =~= Seq::<(int, Seq<char>)>::empty());
    assert(side_views(add@) =~= Seq::<(int, Seq<char>)>::empty());
    assert(all.take(0) =~= Seq::<Seq<char>>::empty());
    while k < ls.len()
        invariant
            k <= ls@.len(),
            all == seqs(ls@),
            all == lines(raw@),
            header@ == "diff --git "@,
            at@ == "@@"@,
            layout_fold(all).peak <= usize::MAX,
            ({
                let st = layout_fold(all.take(k as int));
                &&& row_views(rows@) == st.rows
                &&& in_patch == st.in_patch
                &&& old_ln == st.old_ln
                &&& new_ln == st.new_ln
                &&& side_views(rem@) == st.rem
                &&& side_views(add@) == st.add
            }),
        decreases ls@.len() - k,
    {
        assert(all.take(k + 1).drop_last() =~= all.take(k as int));
        assert(all.take(k + 1).last() == ls@[k as int]@);
        proof {
            lemma_peak_grows(all, k + 1);
        }
        let line = &ls[k];
        match crate::text::strip_prefix_in(line, &header) {
            Some(rest) => {
                flush_pairs(&mut rows, &mut rem, &mut add);
                in_patch = true;
                let path = header_path_in(&rest);
                push_row(&mut rows, Row::File { line: string_of(line), path: string_of(&path) });
            },
            None => {
                if !in_patch {
                    if line.len() > 0 {
                        push_row(&mut rows, Row::Plain(string_of(line)));
                    } else {
                        assert(line@ =~= Seq::<char>::empty());
                    }
                } else if starts_with_in(line, &at) {
                    flush_pairs(&mut rows, &mut rem, &mut add);
                    match parse_hunk(line) {
                        Some((a, _, c, _)) => {
                            old_ln = a;
                            new_ln = c;
                        },
                        None => {},
                    }
                    push_row(&mut rows, Row::Hunk(string_of(line)));
                } else if is_meta(line) {
                    flush_pairs(&mut rows, &mut rem, &mut add);
                    push_row(&mut rows, Row::Dim(string_of(line)));
                } else if line.len() > 0 && line[0] == '-' {
                    proof {
                        lemma_starts_with_char(line@, '-');
                    }
                    let code = slice_vec(line, 1, line.len());
                    assert(code@ =~= line@.drop_first());
                    push_side(&mut rem, old_ln, string_of(&code));
                    old_ln = old_ln + 1;
                } else if line.len() > 0 && line[0] == '+' {
                    proof {
                        lemma_starts_with_char(line@, '-');
                        lemma_starts_with_char(line@, '+');
                    }
                    let code = slice_vec(line, 1, line.len());
                    assert(code@ =~= line@.drop_first());
                    push_side(&mut add, new_ln, string_of(&code));
                    new_ln = new_ln + 1;
                } else if line.len() > 0 && line[0] == ' ' {
                    proof {
                        lemma_starts_with_char(line@, '-');
                        lemma_starts_with_char(line@, '+');
                        lemma_starts_with_char(line@, ' ');
                    }
                    flush_pairs(&mut rows, &mut rem, &mut add);
                    let code = slice_vec(line, 1, line.len());
                    assert(code@ =~= line@.drop_first());
                    push_row(
                        &mut rows,
                        Row::Pair {
                            left: Some((old_ln, string_of(&code))),
                            right: Some((new_ln, string_of(&code))),
                            changed: false,
                        },
                    );
                    old_ln = old_ln + 1;
                    new_ln = new_ln + 1;
                } else {
                    proof {
                        lemma_starts_with_char(line@, '-');
                        lemma_starts_with_char(line@, '+');
                        lemma_starts_with_char(line@, ' ');
                    }
                    flush_pairs(&mut rows, &mut rem, &mut add);
                    push_row(&mut rows, Row::Dim(string_of(line)));
                }
            },
        }
        k = k + 1;
    }
    assert(all.take(ls@.len() as int) =~= all);
    flush_pairs(&mut rows, &mut rem, &mut add);
    rows
}

/// Whether every line number reading the diff reaches fits a `usize`, so that
/// `layout_diff` may be called on it.
pub fn layout_fits(raw: &str) -> (b: bool)
    ensures
        b == (layout_peak(raw@) <= usize::MAX),
{
    let ls = lines_in(&chars_of(raw));
    let ghost all = seqs(ls@);
    let header = chars_of("diff --git ");
    let at = chars_of("@@");
    let mut in_patch = false;
    let mut old_ln: usize = 0;
    let mut new_ln: usize = 0;
    let mut k: usize = 0;
    assert(all.take(0) =~= Seq::<Seq<char>>::empty());
    while k < ls.len()
        invariant
            k <= ls@.len(),
            all == seqs(ls@),
            all == lines(raw@),
            header@ == "diff --git "@,
            at@ == "@@"@,
            ({
                let st = layout_fold(all.take(k as int));
                &&& in_patch == st.in_patch
                &&& old_ln == st.old_ln
                &&& new_ln == st.new_ln
                &&& st.peak <= usize::MAX
            }),
        decreases ls@.len() - k,
    {
        assert(all.take(k + 1).drop_last() =~= all.take(k as int));
        assert(all.take(k + 1).last() == ls@[k as int]@);
        proof {
            lemma_peak_grows(all, k + 1);
        }
        let line = &ls[k];
        match crate::text::strip_prefix_in(line, &header) {
            Some(_) => {
                in_patch = true;
            },
            None => {
                if !in_patch {
                } else if starts_with_in(line, &at) {
                    match parse_hunk(line) {
                        Some((a, _, c, _)) => {
                            old_ln = a;
                            new_ln = c;
                        },
                        None => {},
                    }
                } else if is_meta(line) {
                } else if line.len() > 0 && line[0] == '-' {
                    proof {
                        lemma_starts_with_char(line@, '-');
                    }
                    if old_ln == usize::MAX {
                        return false;
                    }
                    old_ln = old_ln + 1;
                } else if line.len() > 0 && line[0] == '+' {
                    proof {
                        lemma_starts_with_char(line@, '-');
                        lemma_starts_with_char(line@, '+');
                    }
                    if new_ln == usize::MAX {
                        return false;
                    }
                    new_ln = new_ln + 1;
                } else if line.len() > 0 && line[0] == ' ' {
                    proof {
                        lemma_starts_with_char(line@, '-');
                        lemma_starts_with_char(line@, '+');
                        lemma_starts_with_char(line@, ' ');
                    }
                    if old_ln == usize::MAX || new_ln == usize::MAX {
                        return false;
                    }
                    old_ln = old_ln + 1;
                    new_ln = new_ln + 1;
                } else {
                    proof {
                        lemma_starts_with_char(line@, '-');
                        lemma_starts_with_char(line@, '+');
                        lemma_starts_with_char(line@, ' ');
                    }
                }
            },
        }
        k = k + 1;
    }
    assert(all.take(ls@.len() as int) =~= all);
    true
}

proof fn lemma_starts_with_char(s: Seq<char>, c: char)
    ensures
        starts_with(s, seq![c]) == (s.len() > 0 && s[0] == c),
{
    if s.len() > 0 {
        if s[0] == c {
            assert(s.take(1) =~= seq![c]);
        } else {
            assert(s.take(1)[0] != seq![c][0]);
        }
    }
}

/// What follows the last ` b/`, or all of it.
fn header_path_in(rest: &[char]) -> (p: Vec<char>)
    ensures
        p@ == header_path(rest@),
{
    let b = chars_of(" b/");
    proof {
        reveal_strlit(" b/");
    }
    let n = rest.len();
    if n < 3 {
        assert(!exists|i: int| crate::history::is_last_b(rest@, i));
        let v = slice_vec(rest, 0, n);
        assert(v@ =~= rest@);
        return v;
    }
    let mut i: usize = n - 3 + 1;
    while i > 0
        invariant
            n == rest@.len(),
            n >= 3,
            i <= n - 2,
            b@ == " b/"@,
            forall|j: int| i <= j ==> !crate::text::matches_at(rest@, " b/"@, j),
        decreases i,
    {
        if crate::text::match_at(rest, &b, i - 1) {
            assert(crate::history::is_last_b(rest@, i - 1));
            let ghost k = choose|k: int| crate::history::is_last_b(rest@, k);
            assert(k == i - 1) by {
                if k < i - 1 {
                    assert(!crate::text::matches_at(rest@, " b/"@, i - 1));
                }
            }
            let p = slice_vec(rest, i - 1 + 3, n);
            assert(p@ =~= rest@.skip(i - 1 + 3));
            return p;
        }
        i = i - 1;
    }
    assert(!exists|k: int| crate::history::is_last_b(rest@, k));
    let v = slice_vec(rest, 0, n);
    assert(v@ =~= rest@);
    v
}


// ── laying a side out at a width and a pan ──────────────────────────────────

/// What fitting a cell has produced so far: the pieces kept, each with the
/// style of the span it came from, how many columns have been scrolled off the
/// left, and how many are used.
pub open spec fn fit_step<S>(
    st: (Seq<(S, Seq<char>)>, int, int),
    sp: (S, Seq<char>),
    width: int,
    skip: int,
) -> (Seq<(S, Seq<char>)>, int, int) {
    let (out, skipped, used) = st;
    if used >= width {
        st
    } else {
        let len = sp.1.len() as int;
        if skipped < skip {
            let drop = min(skip - skipped, len);
            if drop >= len {
                (out, skipped + drop, used)
            } else {
                let take = min(len - drop, width - used);
                (out.push((sp.0, sp.1.subrange(drop, drop + take))), skipped + drop, used + take)
            }
        } else {
            let take = min(len, width - used);
            (out.push((sp.0, sp.1.subrange(0, take))), skipped, used + take)
        }
    }
}

pub open spec fn fit_fold<S>(spans: Seq<(S, Seq<char>)>, width: int, skip: int) -> (
    Seq<(S, Seq<char>)>,
    int,
    int,
)
    decreases spans.len(),
{
    if spans.len() == 0 {
        (seq![], 0, 0)
    } else {
        fit_step(fit_fold(spans.drop_last(), width, skip), spans.last(), width, skip)
    }
}

pub open spec fn span_views<S>(v: Seq<(S, Vec<char>)>) -> Seq<(S, Seq<char>)> {
    v.map_values(|x: (S, Vec<char>)| (x.0, x.1@))
}

/// Columns the pieces of a cell take.
pub open spec fn pieces_width<S>(v: Seq<(S, Seq<char>)>) -> int
    decreases v.len(),
{
    if v.len() == 0 {
        0
    } else {
        pieces_width(v.drop_last()) + v.last().1.len()
    }
}

/// A fitted cell is exactly as wide as asked: its pieces take the columns it
/// used, never more than `width`, and the padding makes up the rest.
pub proof fn lemma_fit_cell_fills_width<S>(spans: Seq<(S, Seq<char>)>, width: int, skip: int)
    requires
        width >= 0,
        skip >= 0,
    ensures
        pieces_width(fit_fold(spans, width, skip).0) == fit_fold(spans, width, skip).2,
        0 <= fit_fold(spans, width, skip).2 <= width,
    decreases spans.len(),
{
    if spans.len() > 0 {
        lemma_fit_cell_fills_width(spans.drop_last(), width, skip);
        let st = fit_fold(spans.drop_last(), width, skip);
        let out = fit_fold(spans, width, skip).0;
        if out.len() > st.0.len() {
            assert(out.drop_last() =~= st.0);
        }
    }
}

/// The text of a cell's pieces, one after the other.
pub open spec fn flat<S>(v: Seq<(S, Seq<char>)>) -> Seq<char>
    decreases v.len(),
{
    if v.len() == 0 {
        seq![]
    } else {
        flat(v.drop_last()) + v.last().1
    }
}

/// What fitting keeps of a cell's text: past the first `skip` characters, at
/// most `width` of them.
pub open spec fn fit_text(t: Seq<char>, width: int, skip: int) -> Seq<char> {
    let a = min(skip, t.len() as int);
    t.subrange(a, a + min(width, t.len() - a))
}

/// What holds of a fit after any number of spans: the pieces are the cell's
/// text from `skipped` on for `used` characters; short of the width, all of it
/// past the skip is taken; at the width, the skip was all taken.
pub open spec fn fit_inv<S>(spans: Seq<(S, Seq<char>)>, st: (Seq<(S, Seq<char>)>, int, int), width: int, skip: int) -> bool {
    let l = flat(spans).len() as int;
    &&& 0 <= st.2 <= width
    &&& 0 <= st.1 <= skip
    &&& st.1 + st.2 <= l
    &&& st.2 < width ==> st.1 == min(skip, l) && st.2 == l - st.1
    &&& st.2 == width && width > 0 ==> st.1 == skip
    &&& flat(st.0) == flat(spans).subrange(st.1, st.1 + st.2)
}

proof fn lemma_fit_inv<S>(spans: Seq<(S, Seq<char>)>, width: int, skip: int)
    requires
        width >= 0,
        skip >= 0,
    ensures
        fit_inv(spans, fit_fold(spans, width, skip), width, skip),
    decreases spans.len(),
{
    if spans.len() == 0 {
        assert(flat(spans) =~= Seq::<char>::empty());
        assert(flat(Seq::<(S, Seq<char>)>::empty()) =~= Seq::<char>::empty());
        assert(flat(spans).subrange(0, 0) =~= Seq::<char>::empty());
    } else {
        let d = spans.drop_last();
        let x = spans.last();
        lemma_fit_inv(d, width, skip);
        let st = fit_fold(d, width, skip);
        let (out, skipped, used) = st;
        let f = flat(d);
        let f2 = flat(spans);
        assert(f2 == f + x.1);
        let l = f.len() as int;
        let n = x.1.len() as int;
        let st2 = fit_fold(spans, width, skip);
        if used >= width {
            assert(st2 == st);
            assert(f2.subrange(skipped, skipped + used) =~= f.subrange(skipped, skipped + used));
            assert(flat(st2.0) == f2.subrange(st2.1, st2.1 + st2.2));
        } else if skipped < skip {
            let drop = min(skip - skipped, n);
            if drop >= n {
                assert(st2 == (out, skipped + drop, used));
                assert(used == 0);
                assert(f.subrange(skipped, skipped + used) =~= Seq::<char>::empty());
                assert(f2.subrange(skipped + drop, skipped + drop + used) =~= Seq::<char>::empty());
                assert(flat(st2.0) == f2.subrange(st2.1, st2.1 + st2.2));
            } else {
                let take = min(n - drop, width - used);
                let piece = x.1.subrange(drop, drop + take);
                assert(st2 == (out.push((x.0, piece)), skipped + drop, used + take));
                assert(out.push((x.0, piece)).drop_last() =~= out);
                assert(flat(out.push((x.0, piece))) == flat(out) + piece);
                assert(used == 0);
                assert(f.subrange(skipped, skipped + used) =~= Seq::<char>::empty());
                assert(flat(out) =~= Seq::<char>::empty());
                assert(f2.subrange(skipped + drop, skipped + drop + used + take) =~= piece);
                assert(flat(out) + piece =~= piece);
                assert(flat(st2.0) == f2.subrange(st2.1, st2.1 + st2.2));
            }
        } else {
            let take = min(n, width - used);
            let piece = x.1.subrange(0, take);
            assert(st2 == (out.push((x.0, piece)), skipped, used + take));
            assert(out.push((x.0, piece)).drop_last() =~= out);
            assert(flat(out.push((x.0, piece))) == flat(out) + piece);
            assert(f2.subrange(skipped, skipped + used + take) =~= f.subrange(skipped, skipped + used) + piece);
            assert(flat(st2.0) == f2.subrange(st2.1, st2.1 + st2.2));
        }
    }
}

/// A fitted cell shows the cell's text scrolled and cut: its pieces, one
/// after the other, are the text past the first `skip` characters, at most
/// `width` of them, and the padding makes the row exactly `width` wide.
pub proof fn lemma_fit_cell_keeps_text<S>(spans: Seq<(S, Seq<char>)>, width: int, skip: int)
    requires
        width >= 0,
        skip >= 0,
    ensures
        flat(fit_fold(spans, width, skip).0) == fit_text(flat(spans), width, skip),
        fit_fold(spans, width, skip).2 == fit_text(flat(spans), width, skip).len(),
{
    lemma_fit_inv(spans, width, skip);
}

/// A side of a pair fits its gutter: no line number on it is wider than `g`.
pub open spec fn fits_gutter(num: Option<nat>, g: nat) -> bool {
    match num {
        Some(n) => crate::num::decimal(n).len() <= g,
        None => true,
    }
}

/// A gutter is always `g + 1` columns: the number right-aligned and a space,
/// or blanks beside a side with no line.
proof fn lemma_gutter_len(num: Option<nat>, g: nat)
    requires
        fits_gutter(num, g),
    ensures
        gutter_text_of(num, g).len() == g + 1,
{
}

/// A rendered side-by-side row spans exactly the pane: the left gutter, the
/// left cell fitted to its width and padded out, the three columns of ` │ `,
/// then the right gutter and cell likewise, add up to `width` whenever the
/// pane has room for a column on each side (`width >= 2g + 7`) and every line
/// number fits the gutter.
pub proof fn lemma_pair_row_width<S>(
    g: nat,
    width: int,
    lnum: Option<nat>,
    rnum: Option<nat>,
    left: Seq<(S, Seq<char>)>,
    right: Seq<(S, Seq<char>)>,
    skip: int,
)
    requires
        width >= 2 * g + 7,
        fits_gutter(lnum, g),
        fits_gutter(rnum, g),
        skip >= 0,
    ensures
        ({
            let avail = sat_sub(width, 2 * g + 5int);
            let lw = max(avail / 2, 1);
            let rw = max(sat_sub(avail, lw), 1);
            let fl = fit_fold(left, lw, skip);
            let fr = fit_fold(right, rw, skip);
            gutter_text_of(lnum, g).len() + pieces_width(fl.0) + (lw - fl.2) + 3 + gutter_text_of(rnum, g).len()
                + pieces_width(fr.0) + (rw - fr.2) == width
        }),
{
    let avail = sat_sub(width, 2 * g + 5int);
    let lw = max(avail / 2, 1);
    let rw = max(sat_sub(avail, lw), 1);
    lemma_gutter_len(lnum, g);
    lemma_gutter_len(rnum, g);
    lemma_fit_cell_fills_width(left, lw, skip);
    lemma_fit_cell_fills_width(right, rw, skip);
    assert(avail == width - (2 * g + 5));
    assert(lw + rw == avail);
}

/// Slide a cell left by `skip` columns (horizontal scroll), then cut it to
/// `width` columns: the pieces of each span that stay, with its style, and how
/// many columns of padding fill it out to exactly `width`. One column is one
/// character.
pub fn fit_cell<S: Copy>(spans: &Vec<(S, Vec<char>)>, width: usize, skip: usize) -> (r: (
    Vec<(S, Vec<char>)>,
    usize,
))
    ensures
        ({
            let (out, _, used) = fit_fold(span_views(spans@), width as int, skip as int);
            &&& span_views(r.0@) == out
            &&& r.1 == width - used
        }),
{
    let ghost sv = span_views(spans@);
    let mut out: Vec<(S, Vec<char>)> = Vec::new();
    let mut skipped: usize = 0;
    let mut used: usize = 0;
    let mut k: usize = 0;
    assert(span_views(out@) =~= Seq::<(S, Seq<char>)>::empty());
    while k < spans.len()
        invariant
            k <= spans@.len(),
            sv == span_views(spans@),
            ({
                let st = fit_fold(sv.take(k as int), width as int, skip as int);
                &&& span_views(out@) == st.0
                &&& skipped == st.1
                &&& used == st.2
            }),
            skipped <= skip,
            used <= width,
        decreases spans@.len() - k,
    {
        assert(sv.take(k + 1).drop_last() =~= sv.take(k as int));
        assert(sv.take(k + 1).last() == sv[k as int]);
        let (style, text) = (spans[k].0, &spans[k].1);
        assert(sv[k as int] == (style, text@));
        if used < width {
            let len = text.len();
            let ghost before = span_views(out@);
            if skipped < skip {
                let drop = if skip - skipped < len {
                    skip - skipped
                } else {
                    len
                };
                if drop >= len {
                    skipped = skipped + drop;
                } else {
                    let take = if len - drop < width - used {
                        len - drop
                    } else {
                        width - used
                    };
                    let piece = slice_vec(text, drop, drop + take);
                    out.push((style, piece));
                    assert(span_views(out@) =~= before.push((style, text@.subrange(drop as int, drop + take))));
                    skipped = skipped + drop;
                    used = used + take;
                }
            } else {
                let take = if len < width - used {
                    len
                } else {
                    width - used
                };
                let piece = slice_vec(text, 0, take);
                out.push((style, piece));
                assert(span_views(out@) =~= before.push((style, text@.subrange(0, take as int))));
                used = used + take;
            }
        }
        k = k + 1;
    }
    assert(sv.take(spans@.len() as int) =~= sv);
    (out, width - used)
}

/// What each part of a painted side-by-side row is; the painter picks its
/// colour: the line-number gutter, a piece of code in the style it was
/// coloured with, or the padding that fills the cell out.
pub enum Part<S> {
    Gutter,
    Code(S),
    Pad,
}

/// The text of painted pieces, one after the other.
pub open spec fn painted_text<S, B>(v: Seq<(Part<S>, Option<B>, String)>) -> Seq<char>
    decreases v.len(),
{
    if v.len() == 0 {
        seq![]
    } else {
        painted_text(v.drop_last()) + v.last().2@
    }
}

/// The line number of a side, if it has a line.
pub open spec fn cell_num<S>(cell: Option<(usize, Vec<(S, Vec<char>)>)>) -> Option<nat> {
    match cell {
        Some((n, _)) => Some(n as nat),
        None => None,
    }
}

/// The coloured code of a side; none where it has no line.
pub open spec fn cell_spans<S>(cell: Option<(usize, Vec<(S, Vec<char>)>)>) -> Seq<(S, Seq<char>)> {
    match cell {
        Some((_, v)) => span_views(v@),
        None => seq![],
    }
}

/// What one side of a row shows, `w` columns of code wide: its gutter, its
/// code past the first `skip` characters cut to `w`, and blanks up to `w`.
pub open spec fn side_text_of<S>(num: Option<nat>, spans: Seq<(S, Seq<char>)>, g: nat, w: int, skip: int) -> Seq<char> {
    let t = fit_text(flat(spans), w, skip);
    gutter_text_of(num, g) + t + crate::text::spaces((w - t.len()) as nat)
}

/// The background a side is painted with: that of its change, on a changed
/// row, where the side has a line.
pub open spec fn side_bg<B>(changed: bool, has_line: bool, bg: B) -> Option<B> {
    if changed && has_line {
        Some(bg)
    } else {
        None
    }
}

/// Paint one side: its gutter, the pieces of its code that a pan by `skip`
/// and a width of `w` keep, and padding, every piece on `bg`.
fn side_pieces<S: Copy, B: Copy>(
    cell: &Option<(usize, Vec<(S, Vec<char>)>)>,
    g: usize,
    w: usize,
    skip: usize,
    bg: Option<B>,
) -> (r: Vec<(Part<S>, Option<B>, String)>)
    requires
        g < usize::MAX,
    ensures
        painted_text(r@) == side_text_of(cell_num(*cell), cell_spans(*cell), g as nat, w as int, skip as int),
        forall|i: int| 0 <= i < r@.len() ==> (#[trigger] r@[i]).1 == bg,
{
    let empty: Vec<(S, Vec<char>)> = Vec::new();
    let (num, content) = match cell {
        Some((n, c)) => (Some(*n), c),
        None => (None, &empty),
    };
    assert(span_views(empty@) =~= Seq::<(S, Seq<char>)>::empty());
    assert(span_views(content@) == cell_spans(*cell));
    let ghost spans = span_views(content@);
    let mut out: Vec<(Part<S>, Option<B>, String)> = Vec::new();
    out.push((Part::Gutter, bg, gutter_text(num, g)));
    let ghost gut = gutter_text_of(cell_num(*cell), g as nat);
    assert(out@.drop_last() =~= Seq::<(Part<S>, Option<B>, String)>::empty());
    assert(painted_text(Seq::<(Part<S>, Option<B>, String)>::empty()) == Seq::<char>::empty());
    assert(painted_text(out@) =~= gut);
    let (fitted, pad) = fit_cell(content, w, skip);
    let ghost fv = span_views(fitted@);
    proof {
        lemma_fit_cell_keeps_text(spans, w as int, skip as int);
        lemma_fit_cell_fills_width(spans, w as int, skip as int);
    }
    let mut k: usize = 0;
    while k < fitted.len()
        invariant
            k <= fitted@.len(),
            fv == span_views(fitted@),
            painted_text(out@) == gut + flat(fv.take(k as int)),
            forall|i: int| 0 <= i < out@.len() ==> (#[trigger] out@[i]).1 == bg,
        decreases fitted@.len() - k,
    {
        let ghost before = out@;
        let piece = (Part::Code(fitted[k].0), bg, string_of(&fitted[k].1));
        out.push(piece);
        assert(out@.drop_last() =~= before);
        assert(fv.take(k + 1).drop_last() =~= fv.take(k as int));
        assert(fv.take(k + 1).last() == fv[k as int]);
        assert(painted_text(out@) =~= gut + flat(fv.take(k + 1)));
        k = k + 1;
    }
    assert(fv.take(fitted@.len() as int) =~= fv);
    let ghost t = fit_text(flat(spans), w as int, skip as int);
    assert(painted_text(out@) == gut + t);
    if pad > 0 {
        let ghost before = out@;
        out.push((Part::Pad, bg, string_of(&spaces_in(pad))));
        assert(out@.drop_last() =~= before);
    } else {
        assert(crate::text::spaces(0) =~= Seq::<char>::empty());
    }
    assert(painted_text(out@) =~= gut + t + crate::text::spaces((w - t.len()) as nat));
    out
}

/// Paint a side-by-side row at a pane `width` columns wide, panned right by
/// `skip`: each side its gutter, its code fitted to its share of the width and
/// padded out; a side with a line on a changed row takes its background
/// (`left_bg` for what was removed, `right_bg` for what was added) on every
/// piece, gutter and padding included. With room for a column of code on each
/// side and every line number within the gutter, the two sides and the three
/// columns between them span exactly the pane.
pub fn pair_row<S: Copy, B: Copy>(
    left: &Option<(usize, Vec<(S, Vec<char>)>)>,
    right: &Option<(usize, Vec<(S, Vec<char>)>)>,
    changed: bool,
    g: usize,
    width: u16,
    skip: usize,
    left_bg: B,
    right_bg: B,
) -> (r: (Vec<(Part<S>, Option<B>, String)>, Vec<(Part<S>, Option<B>, String)>))
    requires
        2 * g + 5 <= usize::MAX,
    ensures
        ({
            let avail = sat_sub(width as int, 2 * g + 5int);
            let lw = max(avail / 2, 1);
            let rw = max(sat_sub(avail, lw), 1);
            &&& painted_text(r.0@) == side_text_of(cell_num(*left), cell_spans(*left), g as nat, lw, skip as int)
            &&& painted_text(r.1@) == side_text_of(cell_num(*right), cell_spans(*right), g as nat, rw, skip as int)
        }),
        forall|i: int| 0 <= i < r.0@.len() ==> (#[trigger] r.0@[i]).1 == side_bg(changed, *left is Some, left_bg),
        forall|i: int| 0 <= i < r.1@.len() ==> (#[trigger] r.1@[i]).1 == side_bg(changed, *right is Some, right_bg),
        width >= 2 * g + 7 && fits_gutter(cell_num(*left), g as nat) && fits_gutter(cell_num(*right), g as nat)
            ==> painted_text(r.0@).len() + 3 + painted_text(r.1@).len() == width,
{
    let (lw, rw) = side_widths(g, width);
    let lbg = if changed && left.is_some() {
        Some(left_bg)
    } else {
        None
    };
    let rbg = if changed && right.is_some() {
        Some(right_bg)
    } else {
        None
    };
    let l = side_pieces(left, g, lw, skip, lbg);
    let r = side_pieces(right, g, rw, skip, rbg);
    proof {
        if fits_gutter(cell_num(*left), g as nat) && fits_gutter(cell_num(*right), g as nat) {
            lemma_gutter_len(cell_num(*left), g as nat);
            lemma_gutter_len(cell_num(*right), g as nat);
        }
        lemma_fit_cell_keeps_text(cell_spans(*left), lw as int, skip as int);
        lemma_fit_cell_fills_width(cell_spans(*left), lw as int, skip as int);
        lemma_fit_cell_keeps_text(cell_spans(*right), rw as int, skip as int);
        lemma_fit_cell_fills_width(cell_spans(*right), rw as int, skip as int);
    }
    (l, r)
}

// ── rows keep the order of the diff ─────────────────────────────────────────

/// The line number a row shows on one side (`left` for the old file), if it
/// shows a line there.
pub open spec fn side_num(r: RowV, left: bool) -> Option<int> {
    match r {
        RowV::Pair(l, rt, _) => {
            let s = if left {
                l
            } else {
                rt
            };
            match s {
                Some(x) => Some(x.0),
                None => None,
            }
        },
        _ => None,
    }
}

/// A row that starts a new run of line numbers: a file's header or a hunk's.
pub open spec fn opens_hunk(r: RowV) -> bool {
    r is File || r is Hunk
}

pub open spec fn no_hunk_between(rows: Seq<RowV>, i: int, j: int) -> bool {
    forall|k: int| i < k < j ==> !opens_hunk(#[trigger] rows[k])
}

/// Within each hunk, the rows show a side's line numbers in increasing order:
/// of two rows with no file or hunk header between them, the earlier one shows
/// the smaller number.
pub open spec fn in_order(rows: Seq<RowV>, left: bool) -> bool {
    forall|i: int, j: int|
        #![trigger side_num(rows[i], left), side_num(rows[j], left)]
        0 <= i < j < rows.len() && no_hunk_between(rows, i, j) && side_num(rows[i], left) is Some && side_num(
            rows[j],
            left,
        ) is Some ==> side_num(rows[i], left)->0 < side_num(rows[j], left)->0
}

/// Every number a side shows since the last file or hunk header is below `m`.
pub open spec fn tail_below(rows: Seq<RowV>, left: bool, m: int) -> bool {
    forall|i: int|
        0 <= i < rows.len() && no_hunk_between(rows, i, rows.len() as int) && (#[trigger] side_num(
            rows[i],
            left,
        )) is Some ==> side_num(rows[i], left)->0 < m
}

proof fn lemma_push_row(rows: Seq<RowV>, r: RowV, left: bool, m: int, m2: int)
    requires
        in_order(rows, left),
        tail_below(rows, left, m),
        !opens_hunk(r),
        m <= m2,
        side_num(r, left) matches Some(n) ==> m <= n < m2,
    ensures
        in_order(rows.push(r), left),
        tail_below(rows.push(r), left, m2),
{
    let p = rows.push(r);
    assert forall|i: int, j: int|
        #![trigger side_num(p[i], left), side_num(p[j], left)]
        0 <= i < j < p.len() && no_hunk_between(p, i, j) && side_num(p[i], left) is Some && side_num(p[j], left) is Some
            implies side_num(p[i], left)->0 < side_num(p[j], left)->0 by {
        assert(p[i] == rows[i]);
        if j < rows.len() {
            assert(p[j] == rows[j]);
            assert forall|k: int| i < k < j implies !opens_hunk(#[trigger] rows[k]) by {
                assert(p[k] == rows[k]);
            }
        } else {
            assert forall|k: int| i < k < rows.len() implies !opens_hunk(#[trigger] rows[k]) by {
                assert(p[k] == rows[k]);
            }
            assert(side_num(rows[i], left) is Some);
        }
    }
    assert forall|i: int|
        0 <= i < p.len() && no_hunk_between(p, i, p.len() as int) && (#[trigger] side_num(p[i], left)) is Some implies side_num(
            p[i],
            left,
        )->0 < m2 by {
        if i < rows.len() {
            assert(p[i] == rows[i]);
            assert forall|k: int| i < k < rows.len() implies !opens_hunk(#[trigger] rows[k]) by {
                assert(p[k] == rows[k]);
            }
            assert(side_num(rows[i], left) is Some);
        }
    }
}

proof fn lemma_push_header(rows: Seq<RowV>, r: RowV, left: bool, m2: int)
    requires
        in_order(rows, left),
        opens_hunk(r),
    ensures
        in_order(rows.push(r), left),
        tail_below(rows.push(r), left, m2),
{
    let p = rows.push(r);
    assert forall|i: int, j: int|
        #![trigger side_num(p[i], left), side_num(p[j], left)]
        0 <= i < j < p.len() && no_hunk_between(p, i, j) && side_num(p[i], left) is Some && side_num(p[j], left) is Some
            implies side_num(p[i], left)->0 < side_num(p[j], left)->0 by {
        assert(p[i] == rows[i]);
        assert(p[j] == rows[j]);
        assert forall|k: int| i < k < j implies !opens_hunk(#[trigger] rows[k]) by {
            assert(p[k] == rows[k]);
        }
    }
    assert forall|i: int|
        0 <= i < p.len() && no_hunk_between(p, i, p.len() as int) && (#[trigger] side_num(p[i], left)) is Some implies side_num(
            p[i],
            left,
        )->0 < m2 by {
        if i < rows.len() {
            assert(!opens_hunk(p[rows.len() as int]));
        }
    }
}

/// The changed lines waiting on one side, and the next line number there.
pub open spec fn waiting(st: LayoutV, left: bool) -> Seq<(int, Seq<char>)> {
    if left {
        st.rem
    } else {
        st.add
    }
}

pub open spec fn next_num(st: LayoutV, left: bool) -> int {
    if left {
        st.old_ln
    } else {
        st.new_ln
    }
}

/// The numbers waiting on a side climb, and stay below the next one.
pub open spec fn queue_in_order(q: Seq<(int, Seq<char>)>, next: int) -> bool {
    &&& forall|k: int, l: int| 0 <= k < l < q.len() ==> (#[trigger] q[k]).0 < (#[trigger] q[l]).0
    &&& forall|k: int| 0 <= k < q.len() ==> (#[trigger] q[k]).0 < next
}

pub open spec fn queue_floor(q: Seq<(int, Seq<char>)>, next: int) -> int {
    if q.len() > 0 {
        q[0].0
    } else {
        next
    }
}

/// What reading a diff keeps true of one side: the rows so far are in order,
/// everything shown since the last header is below what waits, and what waits
/// is in order below the next number.
pub open spec fn layout_in_order(st: LayoutV, left: bool) -> bool {
    &&& in_order(st.rows, left)
    &&& tail_below(st.rows, left, queue_floor(waiting(st, left), next_num(st, left)))
    &&& queue_in_order(waiting(st, left), next_num(st, left))
}

proof fn lemma_flush_upto(
    rows: Seq<RowV>,
    rem: Seq<(int, Seq<char>)>,
    add: Seq<(int, Seq<char>)>,
    left: bool,
    next: int,
    k: int,
)
    requires
        in_order(rows, left),
        tail_below(rows, left, queue_floor(if left { rem } else { add }, next)),
        queue_in_order(if left { rem } else { add }, next),
        0 <= k <= pairs_of(rem, add).len(),
    ensures
        in_order(rows + pairs_of(rem, add).take(k), left),
        tail_below(
            rows + pairs_of(rem, add).take(k),
            left,
            if k < (if left { rem } else { add }).len() {
                (if left { rem } else { add })[k].0
            } else {
                next
            },
        ),
    decreases k,
{
    let q = if left {
        rem
    } else {
        add
    };
    let ps = pairs_of(rem, add);
    if k == 0 {
        assert(rows + ps.take(0) =~= rows);
    } else {
        lemma_flush_upto(rows, rem, add, left, next, k - 1);
        let before = rows + ps.take(k - 1);
        assert(rows + ps.take(k) =~= before.push(ps[k - 1]));
        let m = if k - 1 < q.len() {
            q[k - 1].0
        } else {
            next
        };
        let m2 = if k < q.len() {
            q[k].0
        } else {
            next
        };
        if k - 1 < q.len() {
            assert(side_num(ps[k - 1], left) == Some(q[k - 1].0));
            if k < q.len() {
                assert(q[k - 1].0 < q[k].0);
            }
        } else {
            assert(side_num(ps[k - 1], left) is None);
        }
        lemma_push_row(before, ps[k - 1], left, m, m2);
    }
}

proof fn lemma_flush_in_order(st: LayoutV, left: bool)
    requires
        layout_in_order(st, left),
    ensures
        layout_in_order(flushed(st), left),
{
    let ps = pairs_of(st.rem, st.add);
    lemma_flush_upto(st.rows, st.rem, st.add, left, next_num(st, left), ps.len() as int);
    assert(ps.take(ps.len() as int) =~= ps);
    assert(waiting(flushed(st), left) =~= Seq::<(int, Seq<char>)>::empty());
}

proof fn lemma_layout_step_in_order(st: LayoutV, line: Seq<char>, left: bool)
    requires
        layout_in_order(st, left),
    ensures
        layout_in_order(layout_step(st, line), left),
{
    let n = layout_step(st, line);
    match strip_prefix(line, "diff --git "@) {
        Some(rest) => {
            lemma_flush_in_order(st, left);
            lemma_push_header(flushed(st).rows, RowV::File(line, header_path(rest)), left, next_num(st, left));
        },
        None => if !st.in_patch {
            if line.len() > 0 {
                lemma_push_row(
                    st.rows,
                    RowV::Plain(line),
                    left,
                    queue_floor(waiting(st, left), next_num(st, left)),
                    queue_floor(waiting(st, left), next_num(st, left)),
                );
            }
        } else if starts_with(line, "@@"@) {
            lemma_flush_in_order(st, left);
            lemma_push_header(flushed(st).rows, RowV::Hunk(line), left, next_num(n, left));
            assert(waiting(n, left) =~= Seq::<(int, Seq<char>)>::empty());
        } else if is_meta_line(line) {
            lemma_flush_in_order(st, left);
            lemma_push_row(flushed(st).rows, RowV::Dim(line), left, next_num(st, left), next_num(st, left));
        } else if starts_with(line, seq!['-']) {
            if left {
                let q = n.rem;
                assert(q == st.rem.push((st.old_ln, line.drop_first())));
                assert(queue_floor(q, n.old_ln) == queue_floor(st.rem, st.old_ln));
                assert forall|k: int, l: int| 0 <= k < l < q.len() implies (#[trigger] q[k]).0 < (#[trigger] q[l]).0 by {
                    if l < st.rem.len() {
                        assert(q[k] == st.rem[k] && q[l] == st.rem[l]);
                    } else {
                        assert(q[k] == st.rem[k]);
                    }
                }
                assert forall|k: int| 0 <= k < q.len() implies (#[trigger] q[k]).0 < n.old_ln by {
                    if k < st.rem.len() {
                        assert(q[k] == st.rem[k]);
                    }
                }
            }
        } else if starts_with(line, seq!['+']) {
            if !left {
                let q = n.add;
                assert(q == st.add.push((st.new_ln, line.drop_first())));
                assert(queue_floor(q, n.new_ln) == queue_floor(st.add, st.new_ln));
                assert forall|k: int, l: int| 0 <= k < l < q.len() implies (#[trigger] q[k]).0 < (#[trigger] q[l]).0 by {
                    if l < st.add.len() {
                        assert(q[k] == st.add[k] && q[l] == st.add[l]);
                    } else {
                        assert(q[k] == st.add[k]);
                    }
                }
                assert forall|k: int| 0 <= k < q.len() implies (#[trigger] q[k]).0 < n.new_ln by {
                    if k < st.add.len() {
                        assert(q[k] == st.add[k]);
                    }
                }
            }
        } else if starts_with(line, seq![' ']) {
            let fl = flushed(st);
            lemma_flush_in_order(st, left);
            let r = RowV::Pair(Some((fl.old_ln, line.drop_first())), Some((fl.new_ln, line.drop_first())), false);
            lemma_push_row(fl.rows, r, left, next_num(st, left), next_num(st, left) + 1);
            assert(waiting(n, left) =~= Seq::<(int, Seq<char>)>::empty());
        } else {
            lemma_flush_in_order(st, left);
            lemma_push_row(flushed(st).rows, RowV::Dim(line), left, next_num(st, left), next_num(st, left));
        },
    }
}

proof fn lemma_layout_fold_in_order(ls: Seq<Seq<char>>, left: bool)
    ensures
        layout_in_order(layout_fold(ls), left),
    decreases ls.len(),
{
    if ls.len() > 0 {
        lemma_layout_fold_in_order(ls.drop_last(), left);
        lemma_layout_step_in_order(layout_fold(ls.drop_last()), ls.last(), left);
    }
}

/// The rows keep the order of the diff: within each hunk, on each side, a row
/// showing a smaller line number comes first. So a change is drawn where it
/// was made: the pairs of removed and added lines before a context line come
/// before that line's row, and the ones after it after.
pub proof fn lemma_layout_keeps_diff_order(raw: Seq<char>)
    ensures
        in_order(layout_of(raw), true),
        in_order(layout_of(raw), false),
{
    lemma_layout_fold_in_order(lines(raw), true);
    lemma_layout_fold_in_order(lines(raw), false);
    lemma_flush_in_order(layout_fold(lines(raw)), true);
    lemma_flush_in_order(layout_fold(lines(raw)), false);
}

// ── each hunk numbers its lines from its header on ─────────────────────────

/// Where a hunk header says a side starts: `a` of `@@ -a,b +c,d @@` for the
/// old side, `c` for the new.
pub open spec fn hunk_start(r: RowV, left: bool) -> Option<int> {
    match r {
        RowV::Hunk(line) => match hunk_of(line) {
            Some((a, _, c, _)) => Some(
                if left {
                    a as int
                } else {
                    c as int
                },
            ),
            None => None,
        },
        _ => None,
    }
}

/// How many of the rows `from..to` show a line on the side.
pub open spec fn numbered(rows: Seq<RowV>, from: int, to: int, left: bool) -> int
    decreases to - from,
{
    if to <= from {
        0
    } else {
        numbered(rows, from, to - 1, left) + if side_num(rows[to - 1], left) is Some {
            1int
        } else {
            0
        }
    }
}

/// Each hunk numbers a side's lines one by one from where its header says:
/// the first row after the header that shows a line there shows the start,
/// and every later one in the hunk the number after the one before it.
pub open spec fn numbered_from_hunk(rows: Seq<RowV>, left: bool) -> bool {
    forall|h: int, i: int|
        #![trigger hunk_start(rows[h], left), side_num(rows[i], left)]
        0 <= h < i < rows.len() && no_hunk_between(rows, h, i) && hunk_start(rows[h], left) is Some && side_num(
            rows[i],
            left,
        ) is Some ==> side_num(rows[i], left)->0 == hunk_start(rows[h], left)->0 + numbered(rows, h + 1, i, left)
}

/// The hunk the rows end in, with where its side starts, when the last header
/// is a readable hunk header.
pub open spec fn open_hunk(rows: Seq<RowV>, left: bool) -> Option<(int, int)>
    decreases rows.len(),
{
    if rows.len() == 0 {
        None
    } else if opens_hunk(rows.last()) {
        match hunk_start(rows.last(), left) {
            Some(s) => Some(((rows.len() - 1) as int, s)),
            None => None,
        }
    } else {
        open_hunk(rows.drop_last(), left)
    }
}

proof fn lemma_open_hunk(rows: Seq<RowV>, left: bool)
    ensures
        open_hunk(rows, left) matches Some((h, s)) ==> 0 <= h < rows.len() && hunk_start(rows[h], left) == Some(s)
            && no_hunk_between(rows, h, rows.len() as int),
        open_hunk(rows, left) is None ==> forall|h: int|
            0 <= h < rows.len() && no_hunk_between(rows, h, rows.len() as int) ==> #[trigger] hunk_start(rows[h], left)
                is None,
    decreases rows.len(),
{
    if rows.len() > 0 {
        let d = rows.drop_last();
        lemma_open_hunk(d, left);
        let n = rows.len() - 1;
        if !opens_hunk(rows.last()) {
            match open_hunk(d, left) {
                Some((h, s)) => {
                    assert(rows[h] == d[h]);
                    assert forall|k: int| h < k < rows.len() implies !opens_hunk(#[trigger] rows[k]) by {
                        if k < n {
                            assert(rows[k] == d[k]);
                        }
                    }
                },
                None => {
                    assert forall|h: int|
                        0 <= h < rows.len() && no_hunk_between(rows, h, rows.len() as int) implies #[trigger] hunk_start(
                            rows[h],
                            left,
                        ) is None by {
                        if h < n {
                            assert(rows[h] == d[h]);
                            assert forall|k: int| h < k < d.len() implies !opens_hunk(#[trigger] d[k]) by {
                                assert(rows[k] == d[k]);
                            }
                        } else {
                            assert(!(rows[h] is Hunk));
                        }
                    }
                },
            }
        } else {
            assert forall|h: int|
                0 <= h < rows.len() && no_hunk_between(rows, h, rows.len() as int) && h < n implies false by {
                assert(opens_hunk(rows[n]));
            }
        }
    }
}

proof fn lemma_numbered_prefix(rows: Seq<RowV>, r: RowV, from: int, to: int, left: bool)
    requires
        0 <= from,
        to <= rows.len(),
    ensures
        numbered(rows.push(r), from, to, left) == numbered(rows, from, to, left),
    decreases to - from,
{
    if to > from {
        lemma_numbered_prefix(rows, r, from, to - 1, left);
        assert(rows.push(r)[to - 1] == rows[to - 1]);
    }
}

/// Where the open hunk of `rows` has got to on a side: its start plus the
/// lines shown since.
pub open spec fn hunk_next(rows: Seq<RowV>, left: bool) -> int {
    match open_hunk(rows, left) {
        Some((h, s)) => s + numbered(rows, h + 1, rows.len() as int, left),
        None => 0,
    }
}

proof fn lemma_push_row_numbered(rows: Seq<RowV>, r: RowV, left: bool)
    requires
        numbered_from_hunk(rows, left),
        !opens_hunk(r),
        open_hunk(rows, left) is Some && side_num(r, left) is Some ==> side_num(r, left)->0 == hunk_next(rows, left),
    ensures
        numbered_from_hunk(rows.push(r), left),
        open_hunk(rows.push(r), left) == open_hunk(rows, left),
        open_hunk(rows, left) is Some ==> hunk_next(rows.push(r), left) == hunk_next(rows, left) + if side_num(
            r,
            left,
        ) is Some {
            1int
        } else {
            0
        },
{
    let p = rows.push(r);
    let n = rows.len() as int;
    assert(p.drop_last() =~= rows);
    lemma_open_hunk(rows, left);
    assert forall|h: int, i: int|
        #![trigger hunk_start(p[h], left), side_num(p[i], left)]
        0 <= h < i < p.len() && no_hunk_between(p, h, i) && hunk_start(p[h], left) is Some && side_num(p[i], left) is Some
            implies side_num(p[i], left)->0 == hunk_start(p[h], left)->0 + numbered(p, h + 1, i, left) by {
        assert(p[h] == rows[h]);
        assert forall|k: int| h < k < i && k < n implies !opens_hunk(#[trigger] rows[k]) by {
            assert(p[k] == rows[k]);
        }
        lemma_numbered_prefix(rows, r, h + 1, i, left);
        if i < n {
            assert(p[i] == rows[i]);
        } else {
            assert(no_hunk_between(rows, h, n));
            let (h0, s0) = open_hunk(rows, left)->0;
            if h0 < h {
                assert(opens_hunk(rows[h]));
            } else if h < h0 {
                assert(opens_hunk(rows[h0]));
            }
        }
    }
    if open_hunk(rows, left) is Some {
        let (h0, s0) = open_hunk(rows, left)->0;
        lemma_numbered_prefix(rows, r, h0 + 1, n, left);
        assert(p[n] == r);
    }
}

proof fn lemma_push_header_numbered(rows: Seq<RowV>, r: RowV, left: bool)
    requires
        numbered_from_hunk(rows, left),
        opens_hunk(r),
    ensures
        numbered_from_hunk(rows.push(r), left),
        open_hunk(rows.push(r), left) == match hunk_start(r, left) {
            Some(s) => Some((rows.len() as int, s)),
            None => None::<(int, int)>,
        },
        hunk_start(r, left) is Some ==> hunk_next(rows.push(r), left) == hunk_start(r, left)->0,
{
    let p = rows.push(r);
    let n = rows.len() as int;
    assert(p.drop_last() =~= rows);
    assert(p.last() == r);
    assert forall|h: int, i: int|
        #![trigger hunk_start(p[h], left), side_num(p[i], left)]
        0 <= h < i < p.len() && no_hunk_between(p, h, i) && hunk_start(p[h], left) is Some && side_num(p[i], left) is Some
            implies side_num(p[i], left)->0 == hunk_start(p[h], left)->0 + numbered(p, h + 1, i, left) by {
        assert(p[h] == rows[h]);
        assert(p[i] == rows[i]);
        assert forall|k: int| h < k < i implies !opens_hunk(#[trigger] rows[k]) by {
            assert(p[k] == rows[k]);
        }
        lemma_numbered_prefix(rows, r, h + 1, i, left);
    }
}

/// What reading a diff keeps true of the numbering on one side: the rows so
/// far number each hunk from its header, and in the hunk still open the lines
/// waiting and the next number carry on from the last one shown.
pub open spec fn layout_numbered(st: LayoutV, left: bool) -> bool {
    &&& numbered_from_hunk(st.rows, left)
    &&& open_hunk(st.rows, left) is Some ==> {
        let q = waiting(st, left);
        let c = hunk_next(st.rows, left);
        &&& forall|k: int| 0 <= k < q.len() ==> (#[trigger] q[k]).0 == c + k
        &&& next_num(st, left) == c + q.len()
    }
}

pub open spec fn side_queue(
    rem: Seq<(int, Seq<char>)>,
    add: Seq<(int, Seq<char>)>,
    left: bool,
) -> Seq<(int, Seq<char>)> {
    if left {
        rem
    } else {
        add
    }
}

proof fn lemma_flush_numbered_upto(
    rows: Seq<RowV>,
    rem: Seq<(int, Seq<char>)>,
    add: Seq<(int, Seq<char>)>,
    left: bool,
    k: int,
)
    requires
        numbered_from_hunk(rows, left),
        open_hunk(rows, left) is Some ==> forall|j: int|
            0 <= j < side_queue(rem, add, left).len() ==> (#[trigger] side_queue(rem, add, left)[j]).0
                == hunk_next(rows, left) + j,
        0 <= k <= pairs_of(rem, add).len(),
    ensures
        numbered_from_hunk(rows + pairs_of(rem, add).take(k), left),
        open_hunk(rows + pairs_of(rem, add).take(k), left) == open_hunk(rows, left),
        open_hunk(rows, left) is Some ==> hunk_next(rows + pairs_of(rem, add).take(k), left) == hunk_next(rows, left)
            + if k < side_queue(rem, add, left).len() {
            k
        } else {
            side_queue(rem, add, left).len() as int
        },
    decreases k,
{
    let q = side_queue(rem, add, left);
    let ps = pairs_of(rem, add);
    if k == 0 {
        assert(rows + ps.take(0) =~= rows);
    } else {
        lemma_flush_numbered_upto(rows, rem, add, left, k - 1);
        let before = rows + ps.take(k - 1);
        assert(rows + ps.take(k) =~= before.push(ps[k - 1]));
        if k - 1 < q.len() {
            assert(side_num(ps[k - 1], left) == Some(q[k - 1].0));
        } else {
            assert(side_num(ps[k - 1], left) is None);
        }
        lemma_push_row_numbered(before, ps[k - 1], left);
    }
}

proof fn lemma_flush_numbered(st: LayoutV, left: bool)
    requires
        layout_numbered(st, left),
    ensures
        layout_numbered(flushed(st), left),
        open_hunk(flushed(st).rows, left) == open_hunk(st.rows, left),
{
    let ps = pairs_of(st.rem, st.add);
    assert(waiting(st, left) == if left { st.rem } else { st.add });
    lemma_flush_numbered_upto(st.rows, st.rem, st.add, left, ps.len() as int);
    assert(ps.take(ps.len() as int) =~= ps);
    assert(waiting(flushed(st), left) =~= Seq::<(int, Seq<char>)>::empty());
}

proof fn lemma_layout_step_numbered(st: LayoutV, line: Seq<char>, left: bool)
    requires
        layout_numbered(st, left),
    ensures
        layout_numbered(layout_step(st, line), left),
{
    let n = layout_step(st, line);
    match strip_prefix(line, "diff --git "@) {
        Some(rest) => {
            lemma_flush_numbered(st, left);
            lemma_push_header_numbered(flushed(st).rows, RowV::File(line, header_path(rest)), left);
        },
        None => if !st.in_patch {
            if line.len() > 0 {
                lemma_push_row_numbered(st.rows, RowV::Plain(line), left);
            }
        } else if starts_with(line, "@@"@) {
            lemma_flush_numbered(st, left);
            lemma_push_header_numbered(flushed(st).rows, RowV::Hunk(line), left);
            assert(waiting(n, left) =~= Seq::<(int, Seq<char>)>::empty());
        } else if is_meta_line(line) {
            lemma_flush_numbered(st, left);
            lemma_push_row_numbered(flushed(st).rows, RowV::Dim(line), left);
        } else if starts_with(line, seq!['-']) {
            if left && open_hunk(st.rows, left) is Some {
                let q = n.rem;
                assert(q == st.rem.push((st.old_ln, line.drop_first())));
                assert forall|k: int| 0 <= k < q.len() implies (#[trigger] q[k]).0 == hunk_next(n.rows, left) + k by {
                    if k < st.rem.len() {
                        assert(q[k] == st.rem[k]);
                    }
                }
            }
        } else if starts_with(line, seq!['+']) {
            if !left && open_hunk(st.rows, left) is Some {
                let q = n.add;
                assert(q == st.add.push((st.new_ln, line.drop_first())));
                assert forall|k: int| 0 <= k < q.len() implies (#[trigger] q[k]).0 == hunk_next(n.rows, left) + k by {
                    if k < st.add.len() {
                        assert(q[k] == st.add[k]);
                    }
                }
            }
        } else if starts_with(line, seq![' ']) {
            let fl = flushed(st);
            lemma_flush_numbered(st, left);
            let r = RowV::Pair(Some((fl.old_ln, line.drop_first())), Some((fl.new_ln, line.drop_first())), false);
            lemma_push_row_numbered(fl.rows, r, left);
            assert(waiting(n, left) =~= Seq::<(int, Seq<char>)>::empty());
        } else {
            lemma_flush_numbered(st, left);
            lemma_push_row_numbered(flushed(st).rows, RowV::Dim(line), left);
        },
    }
}

proof fn lemma_layout_fold_numbered(ls: Seq<Seq<char>>, left: bool)
    ensures
        layout_numbered(layout_fold(ls), left),
    decreases ls.len(),
{
    if ls.len() > 0 {
        lemma_layout_fold_numbered(ls.drop_last(), left);
        lemma_layout_step_numbered(layout_fold(ls.drop_last()), ls.last(), left);
    }
}

/// Each side's lines are numbered from their hunk's header on, one by one:
/// after `@@ -a,b +c,d @@`, the k-th row of the hunk that shows an old line
/// (counting from 0) shows line `a + k`, and the k-th that shows a new line
/// shows line `c + k`.
pub proof fn lemma_layout_numbers_from_hunk(raw: Seq<char>)
    ensures
        numbered_from_hunk(layout_of(raw), true),
        numbered_from_hunk(layout_of(raw), false),
{
    lemma_layout_fold_numbered(lines(raw), true);
    lemma_layout_fold_numbered(lines(raw), false);
    lemma_flush_numbered(layout_fold(lines(raw)), true);
    lemma_flush_numbered(layout_fold(lines(raw)), false);
}

} // verus!
