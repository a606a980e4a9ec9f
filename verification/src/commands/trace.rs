//! `slu trace` - a better history view (a prettier `log`): an aligned list of
//! hash, full date, relative time, committer and subject, with git's own
//! commit graph kept in front of it under `--graph`. What is decided here: the
//! log git is asked for, how its lines read back, and how each row is laid out
//! in a terminal of a given width.

use crate::git::load::{field_or_empty, field_string, fields, fields_in};
use crate::git::SEP;
use crate::num::{decimal, decimal_of};
use crate::text::{
    chars_of, concat, find, find_in, owned, pad_left, pad_left_in, pad_right, pad_right_in, seqs,
    slice_vec, str_views, string_of, string_views, truncate, truncated,
};
use crate::tui::{max, sat_sub};
use vstd::prelude::*;

verus! {

/// Committer names are cut to this many characters.
pub const NAME_MAX: usize = 18;

/// Marks where git's graph rail ends and the fields begin, so the rail is
/// kept and the columns are still ours.
pub const REC: char = '\u{1e}';

/// The terminal width assumed when the terminal cannot say.
pub const DEFAULT_WIDTH: usize = 100;

/// One commit row.
pub struct Row {
    pub hash: String,
    pub date: String,
    pub rel: String,
    pub committer: String,
    pub subject: String,
}

pub struct RowV {
    pub hash: Seq<char>,
    pub date: Seq<char>,
    pub rel: Seq<char>,
    pub committer: Seq<char>,
    pub subject: Seq<char>,
}

pub open spec fn row_view(r: Row) -> RowV {
    RowV { hash: r.hash@, date: r.date@, rel: r.rel@, committer: r.committer@, subject: r.subject@ }
}

/// `%h SEP %ad SEP %ar SEP %cn SEP %s` read back: a line with fewer than four
/// fields is no row; the subject may be missing.
pub open spec fn row_of(line: Seq<char>) -> Option<RowV> {
    let f = fields(line);
    if f.len() < 4 {
        None
    } else {
        Some(RowV { hash: f[0], date: f[1], rel: f[2], committer: f[3], subject: field_or_empty(f, 4) })
    }
}

pub open spec fn opt_row(r: Option<Row>) -> Option<RowV> {
    match r {
        Some(x) => Some(row_view(x)),
        None => None,
    }
}

pub fn parse_row(line: &str) -> (r: Option<Row>)
    ensures
        opt_row(r) == row_of(line@),
{
    let f = fields_in(line);
    if f.len() < 4 {
        return None;
    }
    proof {
        assert(seqs(f@)[0] == f@[0]@);
        assert(seqs(f@)[1] == f@[1]@);
        assert(seqs(f@)[2] == f@[2]@);
        assert(seqs(f@)[3] == f@[3]@);
    }
    Some(
        Row {
            hash: string_of(&f[0]),
            date: string_of(&f[1]),
            rel: string_of(&f[2]),
            committer: string_of(&f[3]),
            subject: field_string(&f, 4),
        },
    )
}

/// A line of the graph view: the rail before `REC` and the row after it, or
/// the whole line as rail when it has no `REC` (a graph-only line like `|\`).
pub open spec fn rail_of(line: Seq<char>) -> (Seq<char>, Option<RowV>) {
    match find(line, seq![REC]) {
        Some(i) => (line.take(i), row_of(line.skip(i + 1))),
        None => (line, None),
    }
}

pub fn split_rail(line: &str) -> (r: (String, Option<Row>))
    ensures
        (r.0@, opt_row(r.1)) == rail_of(line@),
{
    let cs = chars_of(line);
    let rec = [REC];
    assert(rec@ =~= seq![REC]);
    match find_in(&cs, &rec) {
        Some(i) => {
            let rail = slice_vec(&cs, 0, i);
            let rest = string_of(&slice_vec(&cs, i + 1, cs.len()));
            assert(rail@ =~= line@.take(i as int));
            assert(rest@ =~= line@.skip(i + 1));
            (string_of(&rail), parse_row(rest.as_str()))
        },
        None => (string_of(&cs), None),
    }
}

/// The widest `(… ago)` among the rows, or 0 for none.
pub open spec fn rel_width_of(rows: Seq<RowV>) -> int
    decreases rows.len(),
{
    if rows.len() == 0 {
        0
    } else {
        max(rel_width_of(rows.drop_last()), rows.last().rel.len() + 2int)
    }
}

pub open spec fn row_views(rows: Seq<Row>) -> Seq<RowV> {
    rows.map_values(|r: Row| row_view(r))
}

pub fn rel_width(rows: &[Row]) -> (w: usize)
    requires
        forall|i: int| 0 <= i < rows@.len() ==> rows@[i].rel@.len() + 2 <= usize::MAX,
    ensures
        w == rel_width_of(row_views(rows@)),
{
    let ghost rv = row_views(rows@);
    let mut w: usize = 0;
    let mut k: usize = 0;
    while k < rows.len()
        invariant
            k <= rows@.len(),
            rv == row_views(rows@),
            forall|i: int| 0 <= i < rows@.len() ==> rows@[i].rel@.len() + 2 <= usize::MAX,
            w == rel_width_of(rv.take(k as int)),
        decreases rows@.len() - k,
    {
        assert(rv.take(k + 1).drop_last() =~= rv.take(k as int));
        assert(rv.take(k + 1).last() == row_view(rows@[k as int]));
        let n = chars_of(rows[k].rel.as_str()).len() + 2;
        if n > w {
            w = n;
        }
        k = k + 1;
    }
    assert(rv.take(rows@.len() as int) =~= rv);
    w
}

/// One row laid out, each column as it is printed: the hash in seven columns,
/// the date, the relative time right-aligned as a whole in `rel_w` so padding
/// lands before the `(`, the committer cut to `NAME_MAX` in `<…>`, and the
/// subject cut to what is left of `width` after everything left of it (the
/// rail included), but never below ten.
pub struct Cells {
    pub hash: String,
    pub date: String,
    pub rel: String,
    pub who: String,
    pub subject: String,
}

/// The room left for the subject.
pub open spec fn subject_room(rail: Seq<char>, who: Seq<char>, rel_w: int, width: int) -> int {
    max(sat_sub(width, rail.len() + 7 + 2 + 16 + 2 + rel_w + 2 + who.len() + 3), 10)
}

pub open spec fn cells_ok(rail: Seq<char>, r: RowV, rel_w: usize, width: usize, c: Cells) -> bool {
    let who = truncated(r.committer, NAME_MAX as nat);
    &&& c.hash@ == pad_right(r.hash, 7)
    &&& c.date@ == r.date
    &&& c.rel@ == pad_left(seq!['('] + r.rel + seq![')'], rel_w as nat)
    &&& c.who@ == seq!['<'] + who + seq!['>']
    &&& c.subject@ == truncated(r.subject, subject_room(rail, who, rel_w as int, width as int) as nat)
}

pub fn row_cells(rail: &str, r: &Row, rel_w: usize, width: usize) -> (c: Cells)
    requires
        rail@.len() + 32 + rel_w + NAME_MAX <= usize::MAX,
    ensures
        cells_ok(rail@, row_view(*r), rel_w, width, c),
{
    let who = truncate(r.committer.as_str(), NAME_MAX);
    let who_c = chars_of(who.as_str());
    assert(who_c@.len() <= NAME_MAX);
    let left = chars_of(rail).len() + 7 + 2 + 16 + 2 + rel_w + 2 + who_c.len() + 3;
    let room = if width > left {
        width - left
    } else {
        0
    };
    let room = if room > 10 {
        room
    } else {
        10
    };
    let open = ['('];
    let close = [')'];
    let lt = ['<'];
    let gt = ['>'];
    let rel_token = concat(&concat(&open, &chars_of(r.rel.as_str())), &close);
    assert(rel_token@ =~= seq!['('] + r.rel@ + seq![')']);
    let who_token = concat(&concat(&lt, &who_c), &gt);
    assert(who_token@ =~= seq!['<'] + who@ + seq!['>']);
    Cells {
        hash: string_of(&pad_right_in(&chars_of(r.hash.as_str()), 7)),
        date: string_of(&chars_of(r.date.as_str())),
        rel: string_of(&pad_left_in(&rel_token, rel_w)),
        who: string_of(&who_token),
        subject: truncate(r.subject.as_str(), room),
    }
}

/// The terminal's width in columns, or `DEFAULT_WIDTH` when it cannot say.
pub fn width_or_default(cols: Option<u16>) -> (w: usize)
    ensures
        w == match cols {
            Some(c) => c as usize,
            None => DEFAULT_WIDTH,
        },
{
    match cols {
        Some(c) => c as usize,
        None => DEFAULT_WIDTH,
    }
}

/// What `git` is asked for: at most `limit` commits of the current branch, or
/// of every branch (`all`), each a line of fields - behind its graph rail and
/// `REC` under `graph`.
pub open spec fn log_words(all: bool, limit: usize, graph: bool) -> Seq<Seq<char>> {
    let n = decimal(limit as nat);
    let fmt = "%h"@ + seq![SEP] + "%ad"@ + seq![SEP] + "%ar"@ + seq![SEP] + "%cn"@ + seq![SEP]
        + "%s"@;
    let base = if graph {
        seq![
            "log"@,
            "--graph"@,
            "--color=never"@,
            "--date=format:%Y-%m-%d %H:%M"@,
            "-n"@,
            n,
            "--pretty=format:"@ + seq![REC] + fmt,
        ]
    } else {
        seq!["log"@, "-n"@, n, "--date=format:%Y-%m-%d %H:%M"@, "--pretty=format:"@ + fmt]
    };
    if all {
        base.push("--all"@)
    } else {
        base
    }
}

pub fn log_args(all: bool, limit: usize, graph: bool) -> (r: Vec<String>)
    ensures
        string_views(r@) == log_words(all, limit, graph),
{
    let n = string_of(&decimal_of(limit as u64));
    let sep = [SEP];
    let mut fmt = chars_of("%h");
    fmt = concat(&fmt, &sep);
    fmt = concat(&fmt, &chars_of("%ad"));
    fmt = concat(&fmt, &sep);
    fmt = concat(&fmt, &chars_of("%ar"));
    fmt = concat(&fmt, &sep);
    fmt = concat(&fmt, &chars_of("%cn"));
    fmt = concat(&fmt, &sep);
    fmt = concat(&fmt, &chars_of("%s"));
    assert(fmt@ =~= "%h"@ + seq![SEP] + "%ad"@ + seq![SEP] + "%ar"@ + seq![SEP] + "%cn"@ + seq![
        SEP,
    ] + "%s"@);
    let mut r: Vec<String>;
    if graph {
        let rec = [REC];
        let pretty = concat(&concat(&chars_of("--pretty=format:"), &rec), &fmt);
        assert(pretty@ =~= "--pretty=format:"@ + seq![REC] + fmt@);
        let head = ["log", "--graph", "--color=never", "--date=format:%Y-%m-%d %H:%M", "-n"];
        r = owned(&head);
        let ghost h = string_views(r@);
        r.push(n);
        r.push(string_of(&pretty));
        assert(string_views(r@) =~= h.push(decimal(limit as nat)).push(pretty@));
        assert(str_views(head@) =~= seq![
            "log"@,
            "--graph"@,
            "--color=never"@,
            "--date=format:%Y-%m-%d %H:%M"@,
            "-n"@,
        ]);
    } else {
        let pretty = concat(&chars_of("--pretty=format:"), &fmt);
        let head = ["log", "-n"];
        r = owned(&head);
        let ghost h = string_views(r@);
        r.push(n);
        r.push("--date=format:%Y-%m-%d %H:%M".to_owned());
        r.push(string_of(&pretty));
        assert(string_views(r@) =~= h.push(decimal(limit as nat)).push(
            "--date=format:%Y-%m-%d %H:%M"@,
        ).push(pretty@));
        assert(str_views(head@) =~= seq!["log"@, "-n"@]);
    }
    if all {
        r.push("--all".to_owned());
    }
    assert(string_views(r@) =~= log_words(all, limit, graph));
    r
}

} // verus!
