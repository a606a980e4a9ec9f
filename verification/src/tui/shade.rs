//! Colouring a laid-out diff: each file's two sides are highlighted by
//! syntect, the grammar chosen by the file's extension, every side as one run
//! of lines so a construct that spans lines keeps its colours. Code before the
//! first file has no grammar and stays plain.

use crate::text::{chars_of, concat, string_of};
use crate::tui::highlight::{extension, extension_of, layout_diff, layout_of, layout_peak, row_view, row_views, Row, RowV};
use syntect::easy::HighlightLines;
use syntect::highlighting::ThemeSet;
use syntect::parsing::SyntaxSet;
use vstd::prelude::*;

verus! {

/// How a piece of code is painted: its colour and whether it is bold, or
/// nothing for code no grammar has read.
pub type Paint = Option<(u8, u8, u8, bool)>;

/// One side of one row: the pieces of its code, each with its paint, in the
/// shape `fit_cell` lays out.
pub type Cell = Vec<(Paint, Vec<char>)>;

pub type CellV = Seq<(Paint, Seq<char>)>;

pub open spec fn cell_view(c: Cell) -> CellV {
    c@.map_values(|p: (Paint, Vec<char>)| (p.0, p.1@))
}

/// What syntect gives a piece of a line: the foreground's red, green and blue,
/// the font-style bits, and the text.
pub type Piece = (u8, u8, u8, u8, String);

pub type PieceV = (u8, u8, u8, u8, Seq<char>);

pub open spec fn piece_views(v: Seq<Option<Vec<Piece>>>) -> Seq<Option<Seq<PieceV>>> {
    v.map_values(
        |o: Option<Vec<Piece>>|
            match o {
                Some(ps) => Some(ps@.map_values(|p: Piece| (p.0, p.1, p.2, p.3, p.4@))),
                None => None,
            },
    )
}

/// What syntect makes of a run of lines (each ending in its newline) with the
/// grammar for the extension `ext` (plain text when none has it) and the
/// `base16-eighties.dark` theme: per line, its pieces, or none where
/// highlighting the line failed. A function of the extension and the lines,
/// since the grammars and themes are the ones built into syntect.
pub uninterp spec fn highlighted(ext: Seq<char>, lines: Seq<Seq<char>>) -> Seq<Option<Seq<PieceV>>>;

/// syntect's `HighlightLines::highlight_line` over every line in turn, one
/// highlighter for the run, with the grammar `SyntaxSet::find_syntax_by_extension`
/// picks from the built-in set (`find_syntax_plain_text` when none) and the
/// built-in `base16-eighties.dark` theme. What it answers is one entry per
/// line, the named `highlighted` of the extension and the lines; nothing of
/// the grammars is claimed.
#[verifier::external_body]
fn highlight_side(ext: &str, lines: &Vec<String>) -> (r: Vec<Option<Vec<Piece>>>)
    ensures
        r@.len() == lines@.len(),
        piece_views(r@) == highlighted(ext@, crate::text::string_views(lines@)),
{
    let set = SyntaxSet::load_defaults_newlines();
    let themes = ThemeSet::load_defaults();
    let syntax = match set.find_syntax_by_extension(ext) {
        Some(s) => s,
        None => set.find_syntax_plain_text(),
    };
    let mut h = HighlightLines::new(syntax, &themes.themes["base16-eighties.dark"]);
    lines.iter().map(|l| match h.highlight_line(l, &set) {
        Ok(v) => Some(v.into_iter().map(|(s, t)| (s.foreground.r, s.foreground.g, s.foreground.b, s.font_style.bits(), t.to_string())).collect()),
        Err(_) => None,
    }).collect()
}

/// A text with every newline at its end taken off.
pub open spec fn trim_newlines(t: Seq<char>) -> Seq<char>
    decreases t.len(),
{
    if t.len() > 0 && t.last() == '\n' {
        trim_newlines(t.drop_last())
    } else {
        t
    }
}

/// A piece's paint: its colour, and bold when the bold bit is set.
pub open spec fn paint_of(p: PieceV) -> Paint {
    Some((p.0, p.1, p.2, p.3 % 2 == 1))
}

/// A highlighted line's cell: every piece with its newline taken off, the
/// pieces left empty dropped.
pub open spec fn cells_of(ps: Seq<PieceV>) -> CellV
    decreases ps.len(),
{
    if ps.len() == 0 {
        seq![]
    } else {
        let rest = cells_of(ps.drop_last());
        let t = trim_newlines(ps.last().4);
        if t.len() > 0 {
            rest.push((paint_of(ps.last()), t))
        } else {
            rest
        }
    }
}

/// Code shown as it is, unpainted.
pub open spec fn plain_cell(code: Seq<char>) -> CellV {
    seq![(None, code)]
}

/// A line's cell from what highlighting it gave: its pieces, or the code
/// plain when highlighting failed.
pub open spec fn cell_of(h: Option<Seq<PieceV>>, code: Seq<char>) -> CellV {
    match h {
        Some(ps) => cells_of(ps),
        None => plain_cell(code),
    }
}

/// The extension a file's grammar is looked up by, empty when it has none.
pub open spec fn ext_of(path: Seq<char>) -> Seq<char> {
    match extension_of(path) {
        Some(e) => e,
        None => seq![],
    }
}

/// The left (`left`) or right side of a row, when it is a pair that has one.
pub open spec fn side_of(r: RowV, left: bool) -> Option<(int, Seq<char>)> {
    match r {
        RowV::Pair(l, rr, _) => if left {
            l
        } else {
            rr
        },
        _ => None,
    }
}

/// The last file header at or before row `i`, or -1 when none is.
pub open spec fn last_file(rs: Seq<RowV>, i: int) -> int
    decreases i + 1,
{
    if i < 0 {
        -1
    } else if rs[i] is File {
        i
    } else {
        last_file(rs, i - 1)
    }
}

/// The first file header at or after row `k`, or the end.
pub open spec fn next_file(rs: Seq<RowV>, k: int) -> int
    decreases rs.len() - k,
{
    if k >= rs.len() {
        rs.len() as int
    } else if rs[k] is File {
        k
    } else {
        next_file(rs, k + 1)
    }
}

/// The code on one side of rows `from..to`, in order, each line with its
/// newline: what that side's highlighter reads.
pub open spec fn side_lines(rs: Seq<RowV>, from: int, to: int, left: bool) -> Seq<Seq<char>>
    decreases to - from,
{
    if to <= from {
        seq![]
    } else {
        side_lines(rs, from, to - 1, left) + match side_of(rs[to - 1], left) {
            Some((_, c)) => seq![c.push('\n')],
            None => seq![],
        }
    }
}

/// One side of row `i`, coloured: nothing when the row has no code on that
/// side; the code plain before the first file; else the entry for this line
/// in what highlighting the whole side of its file gave, under the grammar of
/// the file's extension.
pub open spec fn shaded(rs: Seq<RowV>, i: int, left: bool) -> CellV {
    match side_of(rs[i], left) {
        None => seq![],
        Some((_, code)) => {
            let j = last_file(rs, i);
            if j < 0 {
                plain_cell(code)
            } else {
                match rs[j] {
                    RowV::File(_, path) => cell_of(
                        highlighted(ext_of(path), side_lines(rs, j + 1, next_file(rs, j + 1), left))[side_lines(
                            rs,
                            j + 1,
                            i,
                            left,
                        ).len() as int],
                        code,
                    ),
                    _ => seq![],
                }
            }
        },
    }
}

proof fn lemma_last_file_is(rs: Seq<RowV>, j: int, k: int)
    requires
        0 <= j <= k < rs.len(),
        rs[j] is File,
        forall|m: int| j < m <= k ==> !(#[trigger] rs[m] is File),
    ensures
        last_file(rs, k) == j,
    decreases k - j,
{
    if k > j {
        lemma_last_file_is(rs, j, k - 1);
    }
}

proof fn lemma_no_file_yet(rs: Seq<RowV>, k: int)
    requires
        k < rs.len(),
        forall|m: int| 0 <= m <= k ==> !(#[trigger] rs[m] is File),
    ensures
        last_file(rs, k) == -1,
    decreases k + 1,
{
    if k >= 0 {
        lemma_no_file_yet(rs, k - 1);
    }
}

proof fn lemma_next_file_is(rs: Seq<RowV>, k: int, e: int)
    requires
        0 <= k <= e <= rs.len(),
        e == rs.len() || rs[e] is File,
        forall|m: int| k <= m < e ==> !(#[trigger] rs[m] is File),
    ensures
        next_file(rs, k) == e,
    decreases e - k,
{
    if k < e {
        lemma_next_file_is(rs, k + 1, e);
    }
}

proof fn lemma_side_lines_grow(rs: Seq<RowV>, from: int, a: int, b: int, left: bool)
    requires
        from <= a <= b,
    ensures
        side_lines(rs, from, a, left).len() <= side_lines(rs, from, b, left).len(),
    decreases b - a,
{
    if a < b {
        lemma_side_lines_grow(rs, from, a, b - 1, left);
    }
}

fn is_file(r: &Row) -> (b: bool)
    ensures
        b == (row_view(*r) is File),
{
    match r {
        Row::File { .. } => true,
        _ => false,
    }
}

fn file_path(r: &Row) -> (p: String)
    requires
        row_view(*r) is File,
    ensures
        row_view(*r) matches RowV::File(_, path) && p@ == path,
{
    match r {
        Row::File { path, .. } => string_of(&chars_of(path.as_str())),
        _ => String::new(),
    }
}

fn side_code(r: &Row, left: bool) -> (c: Option<String>)
    ensures
        match side_of(row_view(*r), left) {
            Some((_, code)) => c matches Some(s) && s@ == code,
            None => c is None,
        },
{
    match r {
        Row::Pair { left: l, right: rr, .. } => {
            let s = if left {
                l
            } else {
                rr
            };
            match s {
                Some((_, code)) => Some(string_of(&chars_of(code.as_str()))),
                None => None,
            }
        },
        _ => None,
    }
}

fn trimmed(t: &str) -> (r: Vec<char>)
    ensures
        r@ == trim_newlines(t@),
{
    let mut v = chars_of(t);
    while v.len() > 0 && v[v.len() - 1] == '\n'
        invariant
            trim_newlines(v@) == trim_newlines(t@),
        decreases v.len(),
    {
        v.pop();
    }
    v
}

fn cell_from(h: &Option<Vec<Piece>>, code: &String) -> (c: Cell)
    ensures
        cell_view(c) == cell_of(
            match h {
                Some(ps) => Some(ps@.map_values(|p: Piece| (p.0, p.1, p.2, p.3, p.4@))),
                None => None,
            },
            code@,
        ),
{
    match h {
        None => {
            let mut c: Cell = Vec::new();
            c.push((None, chars_of(code.as_str())));
            assert(cell_view(c) =~= plain_cell(code@));
            c
        },
        Some(ps) => {
            let ghost pv = ps@.map_values(|p: Piece| (p.0, p.1, p.2, p.3, p.4@));
            let mut c: Cell = Vec::new();
            let mut k: usize = 0;
            while k < ps.len()
                invariant
                    k <= ps@.len(),
                    pv == ps@.map_values(|p: Piece| (p.0, p.1, p.2, p.3, p.4@)),
                    cell_view(c) == cells_of(pv.take(k as int)),
                decreases ps@.len() - k,
            {
                let p = &ps[k];
                let t = trimmed(p.4.as_str());
                assert(pv.take(k + 1).drop_last() =~= pv.take(k as int));
                assert(pv.take(k + 1).last() == pv[k as int]);
                if t.len() > 0 {
                    c.push((Some((p.0, p.1, p.2, p.3 % 2 == 1)), t));
                    assert(cell_view(c) =~= cells_of(pv.take(k as int)).push(
                        (paint_of(pv[k as int]), trim_newlines(pv[k as int].4)),
                    ));
                }
                k = k + 1;
            }
            assert(pv.take(ps@.len() as int) =~= pv);
            c
        },
    }
}

/// One side of every row, coloured: each file's side is highlighted as one
/// run, and every row gets its entry from that run.
fn shade_column(rows: &Vec<Row>, left: bool) -> (out: Vec<Cell>)
    ensures
        out@.len() == rows@.len(),
        forall|i: int|
            0 <= i < rows@.len() ==> cell_view(#[trigger] out@[i]) == shaded(row_views(rows@), i, left),
{
    let ghost rs = row_views(rows@);
    let n = rows.len();
    let mut out: Vec<Cell> = Vec::new();
    let mut i: usize = 0;
    // Code before the first file header stays plain.
    while i < n && !is_file(&rows[i])
        invariant
            n == rows@.len(),
            rs == row_views(rows@),
            i <= n,
            out@.len() == i,
            forall|m: int| 0 <= m < i ==> !(#[trigger] rs[m] is File),
            forall|k: int| 0 <= k < i ==> cell_view(#[trigger] out@[k]) == shaded(rs, k, left),
        decreases n - i,
    {
        proof {
            lemma_no_file_yet(rs, i as int);
        }
        let c: Cell = match side_code(&rows[i], left) {
            Some(code) => {
                let mut c: Cell = Vec::new();
                c.push((None, chars_of(code.as_str())));
                assert(cell_view(c) =~= plain_cell(code@));
                c
            },
            None => {
                let c: Cell = Vec::new();
                assert(cell_view(c) =~= Seq::<(Paint, Seq<char>)>::empty());
                c
            },
        };
        out.push(c);
        i = i + 1;
    }
    // One file at a time: row `i` is its header.
    while i < n
        invariant
            n == rows@.len(),
            rs == row_views(rows@),
            i <= n,
            i < n ==> rs[i as int] is File,
            out@.len() == i,
            forall|k: int| 0 <= k < i ==> cell_view(#[trigger] out@[k]) == shaded(rs, k, left),
        decreases n - i,
    {
        let j = i;
        let path = file_path(&rows[j]);
        let mut e = j + 1;
        while e < n && !is_file(&rows[e])
            invariant
                n == rows@.len(),
                rs == row_views(rows@),
                j < e <= n,
                forall|m: int| j < m < e ==> !(#[trigger] rs[m] is File),
            decreases n - e,
        {
            e = e + 1;
        }
        proof {
            lemma_next_file_is(rs, j + 1, e as int);
        }
        let mut lines: Vec<String> = Vec::new();
        let mut k = j + 1;
        while k < e
            invariant
                n == rows@.len(),
                rs == row_views(rows@),
                j < k <= e <= n,
                crate::text::string_views(lines@) == side_lines(rs, j + 1, k as int, left),
            decreases e - k,
        {
            match side_code(&rows[k], left) {
                Some(code) => {
                    let nl = ['\n'];
                    let line = string_of(&concat(&chars_of(code.as_str()), &nl));
                    assert(line@ =~= code@.push('\n'));
                    lines.push(line);
                    assert(crate::text::string_views(lines@) =~= side_lines(rs, j + 1, k as int, left)
                        + seq![code@.push('\n')]);
                },
                None => {
                    assert(side_lines(rs, j + 1, k + 1, left) =~= side_lines(rs, j + 1, k as int, left));
                },
            }
            k = k + 1;
        }
        let ghost all = side_lines(rs, j + 1, e as int, left);
        let ext = match extension(path.as_str()) {
            Some(x) => x,
            None => String::new(),
        };
        assert(ext@ == ext_of(path@));
        let hs = highlight_side(ext.as_str(), &lines);
        let hn = hs.len();
        let ghost hv = highlighted(ext_of(path@), all);
        // The header row itself has no code.
        let head: Cell = Vec::new();
        assert(cell_view(head) =~= Seq::<(Paint, Seq<char>)>::empty());
        out.push(head);
        let mut k = j + 1;
        let mut p: usize = 0;
        while k < e
            invariant
                n == rows@.len(),
                rs == row_views(rows@),
                j < k <= e <= n,
                rs[j as int] is File,
                rs[j as int] matches RowV::File(_, pp) && pp == path@,
                forall|m: int| j < m < e ==> !(#[trigger] rs[m] is File),
                e == next_file(rs, j + 1),
                all == side_lines(rs, j + 1, e as int, left),
                hs@.len() == all.len(),
                hn == hs@.len(),
                piece_views(hs@) == hv,
                hv == highlighted(ext_of(path@), all),
                p == side_lines(rs, j + 1, k as int, left).len(),
                out@.len() == k,
                forall|q: int| 0 <= q < k ==> cell_view(#[trigger] out@[q]) == shaded(rs, q, left),
            decreases e - k,
        {
            proof {
                lemma_last_file_is(rs, j as int, k as int);
                lemma_side_lines_grow(rs, j + 1, k + 1, e as int, left);
            }
            let c: Cell = match side_code(&rows[k], left) {
                Some(code) => {
                    assert(side_lines(rs, j + 1, k + 1, left).len() == p + 1);
                    assert(p < hn);
                    let c = cell_from(&hs[p], &code);
                    assert(hv[p as int] == match hs@[p as int] {
                        Some(ps) => Some(ps@.map_values(|x: Piece| (x.0, x.1, x.2, x.3, x.4@))),
                        None => None,
                    });
                    p = p + 1;
                    c
                },
                None => {
                    let c: Cell = Vec::new();
                    assert(cell_view(c) =~= Seq::<(Paint, Seq<char>)>::empty());
                    c
                },
            };
            out.push(c);
            k = k + 1;
        }
        i = e;
    }
    out
}

/// A diff laid out and coloured: its rows, and for each row the cells of its
/// two sides.
pub struct Shaded {
    pub rows: Vec<Row>,
    pub old: Vec<Cell>,
    pub new: Vec<Cell>,
}

/// Read `git show` output into rows and colour both sides of every pair: the
/// rows are the diff's layout, and each side of each file is highlighted as
/// one run of lines under the grammar of the file's extension.
pub fn prepare(raw: &str) -> (s: Shaded)
    requires
        layout_peak(raw@) <= usize::MAX,
    ensures
        row_views(s.rows@) == layout_of(raw@),
        s.old@.len() == s.rows@.len(),
        s.new@.len() == s.rows@.len(),
        forall|i: int|
            0 <= i < s.rows@.len() ==> cell_view(#[trigger] s.old@[i]) == shaded(layout_of(raw@), i, true),
        forall|i: int|
            0 <= i < s.rows@.len() ==> cell_view(#[trigger] s.new@[i]) == shaded(layout_of(raw@), i, false),
{
    let rows = layout_diff(raw);
    let old = shade_column(&rows, true);
    let new = shade_column(&rows, false);
    Shaded { rows, old, new }
}

} // verus!
