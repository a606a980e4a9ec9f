//! Shared git-history search used by both `search` and `scan`.
//!
//! Both commands work the same way under the hood: run git's pickaxe
//! (`git log -S <term>`) across all branches, then read the patch output back
//! into commits → files → matching diff lines. Running git is the caller's
//! part; reading what it printed and folding several terms' answers into one
//! list is here.
//!
//! Pickaxe is used rather than grepping the rendered diff because it also
//! detects changes inside binary/encrypted blobs, where `git log -p` prints no
//! +/- text lines at all. That is the difference that lets `scan` catch secrets
//! committed in encrypted `.env` files.

use crate::text::{
    chars_of, contains, contains_in, lines, lines_in, matches_at, same, seqs, slice_vec,
    split_once, split_once_in, starts_with, starts_with_in, string_of, strip_prefix,
};
use vstd::prelude::*;

verus! {

/// `str::to_lowercase`: Unicode lowercasing of every character, which may
/// change the text's length. A function of the text alone.
pub uninterp spec fn lowercase(s: Seq<char>) -> Seq<char>;

/// `str::to_lowercase`. Its whole answer is the named `lowercase` of the text
/// it was given; nothing else about Unicode's case mapping is claimed.
#[verifier::external_body]
pub(crate) fn to_lowercase(s: &str) -> (r: String)
    ensures
        r@ == lowercase(s@),
{
    s.to_lowercase()
}

/// One commit that matched, with the files that changed and their diff lines.
pub struct CommitMatch {
    /// Abbreviated hash (%h) — for display.
    pub short: String,
    /// Full hash (%H) — stable key for merging and `branch --contains`.
    pub full: String,
    /// Author date, `YYYY-MM-DD` (%ad with --date=short).
    pub date: String,
    /// Commit subject line (%s).
    pub subject: String,
    pub files: Vec<FileMatch>,
}

/// One file within a matching commit.
pub struct FileMatch {
    pub path: String,
    /// (is_addition, line). Empty for binary/encrypted files — git shows no
    /// +/- lines for those, but pickaxe still flags the file as changed.
    pub lines: Vec<(bool, String)>,
}

/// What a matched line is: whether it was added, and its text.
pub type LineV = (bool, Seq<char>);

/// A file's path and its matched lines.
pub type FileV = (Seq<char>, Seq<LineV>);

/// A commit as the contracts see it.
pub struct CommitV {
    pub short: Seq<char>,
    pub full: Seq<char>,
    pub date: Seq<char>,
    pub subject: Seq<char>,
    pub files: Seq<FileV>,
}

pub open spec fn line_views(v: Seq<(bool, String)>) -> Seq<LineV> {
    v.map_values(|l: (bool, String)| (l.0, l.1@))
}

pub open spec fn file_view(f: FileMatch) -> FileV {
    (f.path@, line_views(f.lines@))
}

pub open spec fn file_views(v: Seq<FileMatch>) -> Seq<FileV> {
    v.map_values(|f: FileMatch| file_view(f))
}

pub open spec fn commit_view(c: CommitMatch) -> CommitV {
    CommitV {
        short: c.short@,
        full: c.full@,
        date: c.date@,
        subject: c.subject@,
        files: file_views(c.files@),
    }
}

pub open spec fn commit_views(v: Seq<CommitMatch>) -> Seq<CommitV> {
    v.map_values(|c: CommitMatch| commit_view(c))
}

// ── reading one term's log ──────────────────────────────────────────────────

/// The file path of a `diff --git a/<path> b/<path>` header: what follows the
/// last ` b/`, which for a deletion still names the real file. Any other line
/// has none.
pub open spec fn is_last_b(rest: Seq<char>, i: int) -> bool {
    matches_at(rest, " b/"@, i) && forall|j: int| i < j ==> !matches_at(rest, " b/"@, j)
}

pub open spec fn diff_header_path(line: Seq<char>) -> Option<Seq<char>> {
    match strip_prefix(line, "diff --git "@) {
        Some(rest) => if exists|i: int| is_last_b(rest, i) {
            Some(rest.skip((choose|i: int| is_last_b(rest, i)) + 3))
        } else {
            None
        },
        None => None,
    }
}

/// Extract the file path from a `diff --git a/<path> b/<path>` header line.
/// Uses the `b/` (destination) path; for a deletion git still records the real
/// name there. Returns None for any other line.
pub fn parse_diff_header(line: &[char]) -> (r: Option<Vec<char>>)
    ensures
        match r {
            Some(p) => diff_header_path(line@) == Some(p@),
            None => diff_header_path(line@) is None,
        },
{
    let prefix = chars_of("diff --git ");
    if !starts_with_in(line, &prefix) {
        return None;
    }
    let rest = slice_vec(line, prefix.len(), line.len());
    assert(rest@ =~= line@.skip(prefix@.len() as int));
    let b = chars_of(" b/");
    proof {
        reveal_strlit(" b/");
    }
    let n = rest.len();
    if n < 3 {
        assert(!exists|i: int| is_last_b(rest@, i));
        return None;
    }
    let mut i: usize = n - 3 + 1;
    while i > 0
        invariant
            n == rest@.len(),
            n >= 3,
            i <= n - 2,
            b@ == " b/"@,
            prefix@ == "diff --git "@,
            crate::text::starts_with(line@, prefix@),
            rest@ == line@.skip(prefix@.len() as int),
            forall|j: int| i <= j ==> !matches_at(rest@, " b/"@, j),
        decreases i,
    {
        let m = crate::text::match_at(&rest, &b, i - 1);
        if m {
            assert(is_last_b(rest@, i - 1));
            let ghost k = choose|k: int| is_last_b(rest@, k);
            assert(k == i - 1) by {
                if k < i - 1 {
                    assert(!matches_at(rest@, " b/"@, i - 1));
                }
            }
            let p = slice_vec(&rest, i - 1 + 3, n);
            assert(p@ =~= rest@.skip(i - 1 + 3));
            assert(strip_prefix(line@, "diff --git "@) == Some(rest@));
            assert(exists|j: int| is_last_b(rest@, j));
            let ghost sr = strip_prefix(line@, "diff --git "@)->0;
            assert(sr == rest@);
            assert(exists|j: int| is_last_b(sr, j));
            assert(diff_header_path(line@) == Some(sr.skip((choose|j: int| is_last_b(sr, j)) + 3)));
            return Some(p);
        }
        i = i - 1;
    }
    assert(!exists|k: int| is_last_b(rest@, k));
    None
}

/// The header fields of a `COMMIT:<short>|<full>|<date>|||<subject>` line, the
/// way `splitn(3, '|')` cuts the part before `|||`.
pub open spec fn splitn3(meta: Seq<char>) -> (Seq<char>, Seq<char>, Seq<char>) {
    match split_once(meta, seq!['|']) {
        None => (meta, seq![], seq![]),
        Some((a, r)) => match split_once(r, seq!['|']) {
            None => (a, r, seq![]),
            Some((b, c)) => (a, b, c),
        },
    }
}

/// The commit a `COMMIT:` header starts, before any file is read.
pub open spec fn header_commit(rest: Seq<char>) -> CommitV {
    let (meta, subject) = match split_once(rest, "|||"@) {
        Some((m, s)) => (m, s),
        None => (rest, seq![]),
    };
    let (short, full, date) = splitn3(meta);
    CommitV { short, full, date, subject, files: seq![] }
}

/// A `+` or `-` line of a patch, not its `+++`/`---` header.
pub open spec fn is_added(line: Seq<char>) -> bool {
    starts_with(line, seq!['+']) && !starts_with(line, "+++"@)
}

pub open spec fn is_removed(line: Seq<char>) -> bool {
    starts_with(line, seq!['-']) && !starts_with(line, "---"@)
}

/// Whether a changed line contains the term: both lowercased when the search
/// ignores case.
pub open spec fn line_hits(line: Seq<char>, term: Seq<char>, ci: bool) -> bool {
    if ci {
        contains(lowercase(line), lowercase(term))
    } else {
        contains(line, term)
    }
}

/// What reading the log so far has produced: the commits finished, and the
/// one being read.
pub struct LogRead {
    pub done: Seq<CommitV>,
    pub cur: Option<CommitV>,
}

/// How one line of `git log -p` output changes what has been read: a `COMMIT:`
/// header finishes the commit before it and starts another; inside a commit a
/// `diff --git` header starts a file; inside a file, a changed line that holds
/// the term is kept under that file. Everything else is skipped.
pub open spec fn log_step(st: LogRead, line: Seq<char>, term: Seq<char>, ci: bool) -> LogRead {
    match strip_prefix(line, "COMMIT:"@) {
        Some(rest) => LogRead {
            done: match st.cur {
                Some(c) => st.done.push(c),
                None => st.done,
            },
            cur: Some(header_commit(rest)),
        },
        None => match st.cur {
            None => st,
            Some(c) => match diff_header_path(line) {
                Some(path) => LogRead {
                    done: st.done,
                    cur: Some(CommitV { files: c.files.push((path, seq![])), ..c }),
                },
                None => if c.files.len() > 0 && (is_added(line) || is_removed(line)) && line_hits(
                    line,
                    term,
                    ci,
                ) {
                    let f = c.files.last();
                    LogRead {
                        done: st.done,
                        cur: Some(
                            CommitV {
                                files: c.files.update(
                                    c.files.len() - 1,
                                    (f.0, f.1.push((is_added(line), line))),
                                ),
                                ..c
                            },
                        ),
                    }
                } else {
                    st
                },
            },
        },
    }
}

pub open spec fn log_fold(ls: Seq<Seq<char>>, term: Seq<char>, ci: bool) -> LogRead
    decreases ls.len(),
{
    if ls.len() == 0 {
        LogRead { done: seq![], cur: None }
    } else {
        log_step(log_fold(ls.drop_last(), term, ci), ls.last(), term, ci)
    }
}

/// Every commit of one term's `git log --all -S <term> -p
/// --pretty=format:COMMIT:%h|%H|%ad|||%s` output, in the order git printed
/// them, with the files it changed and the changed lines that hold the term.
pub open spec fn parse_log_of(output: Seq<char>, term: Seq<char>, ci: bool) -> Seq<CommitV> {
    let st = log_fold(lines(output), term, ci);
    match st.cur {
        Some(c) => st.done.push(c),
        None => st.done,
    }
}

fn string_vec(v: &[char]) -> (s: String)
    ensures
        s@ == v@,
{
    string_of(v)
}

/// The header of the commit being read, as the contracts see it.
pub open spec fn meta_of(meta: &Option<(String, String, String, String)>) -> (
    Seq<char>,
    Seq<char>,
    Seq<char>,
    Seq<char>,
) {
    match meta {
        Some(m) => (m.0@, m.1@, m.2@, m.3@),
        None => (seq![], seq![], seq![], seq![]),
    }
}

/// The file still being read, as the contracts see it.
pub open spec fn open_seq(open: &Option<(String, Vec<(bool, String)>)>) -> Option<
    (Seq<char>, Seq<(bool, String)>),
> {
    match open {
        Some(o) => Some((o.0@, o.1@)),
        None => None,
    }
}

/// The commit being read, in pieces: its header, the files already closed, and
/// the file whose lines are still coming.
pub open spec fn open_view(
    meta: (Seq<char>, Seq<char>, Seq<char>, Seq<char>),
    files: Seq<FileMatch>,
    open: Option<(Seq<char>, Seq<(bool, String)>)>,
) -> CommitV {
    CommitV {
        short: meta.0,
        full: meta.1,
        date: meta.2,
        subject: meta.3,
        files: file_views(files) + match open {
            Some((p, ls)) => seq![(p, line_views(ls))],
            None => seq![],
        },
    }
}

fn close_file(files: &mut Vec<FileMatch>, path: String, found: Vec<(bool, String)>)
    ensures
        file_views(final(files)@) == file_views(old(files)@).push(
            (path@, line_views(found@)),
        ),
{
    let ghost before = file_views(files@);
    let ghost fv = (path@, line_views(found@));
    files.push(FileMatch { path, lines: found });
    assert(file_views(files@) =~= before.push(fv));
}

fn push_line(found: &mut Vec<(bool, String)>, add: bool, text: String)
    ensures
        line_views(final(found)@) == line_views(old(found)@).push((add, text@)),
{
    let ghost before = line_views(found@);
    let ghost tv = text@;
    found.push((add, text));
    assert(line_views(found@) =~= before.push((add, tv)));
}

/// Finish the commit being read and add it to `done`.
fn finish(
    done: &mut Vec<CommitMatch>,
    meta: (String, String, String, String),
    files: Vec<FileMatch>,
    open: Option<(String, Vec<(bool, String)>)>,
)
    ensures
        commit_views(final(done)@) == commit_views(old(done)@).push(
            open_view(
                (meta.0@, meta.1@, meta.2@, meta.3@),
                files@,
                open_seq(&open),
            ),
        ),
{
    let ghost v = open_view(
        (meta.0@, meta.1@, meta.2@, meta.3@),
        files@,
        open_seq(&open),
    );
    let mut files = files;
    let ghost f0 = file_views(files@);
    match open {
        Some((p, ls)) => {
            let ghost pv = (p@, line_views(ls@));
            close_file(&mut files, p, ls);
            assert(file_views(files@) == f0.push(pv));
        },
        None => {},
    }
    assert(file_views(files@) =~= v.files);
    let (short, full, date, subject) = meta;
    let c = CommitMatch { short, full, date, subject, files };
    assert(commit_view(c) =~= v);
    let ghost before = commit_views(done@);
    done.push(c);
    assert(commit_views(done@) =~= before.push(v));
}

/// The header fields of a `COMMIT:` line, after the tag.
fn header_of(rest: &[char]) -> (m: (String, String, String, String))
    ensures
        header_commit(rest@) == (CommitV {
            short: m.0@,
            full: m.1@,
            date: m.2@,
            subject: m.3@,
            files: seq![],
        }),
{
    let bars = chars_of("|||");
    let bar = ['|'];
    assert(bar@ =~= seq!['|']);
    let (head, subject) = match split_once_in(&rest, &bars) {
        Some((a, b)) => (a, b),
        None => (slice_vec(&rest, 0, rest.len()), Vec::new()),
    };
    let (short, full, date) = match split_once_in(&head, &bar) {
        None => (slice_vec(&head, 0, head.len()), Vec::new(), Vec::new()),
        Some((a, r)) => match split_once_in(&r, &bar) {
            None => (a, r, Vec::new()),
            Some((b, c)) => (a, b, c),
        },
    };
    assert(head@ =~= head@.subrange(0, head@.len() as int));
    assert(rest@ =~= rest@.subrange(0, rest@.len() as int));
    assert(splitn3(head@) == (short@, full@, date@));
    assert(header_commit(rest@) == CommitV {
        short: short@,
        full: full@,
        date: date@,
        subject: subject@,
        files: seq![],
    });
    (string_vec(&short), string_vec(&full), string_vec(&date), string_vec(&subject))
}

/// Parse raw `git log -p` output into a list of CommitMatch structs.
pub fn parse_log(output: &str, term: &str, case_insensitive: bool) -> (r: Vec<CommitMatch>)
    ensures
        commit_views(r@) == parse_log_of(output@, term@, case_insensitive),
{
    let needle = if case_insensitive {
        chars_of(to_lowercase(term).as_str())
    } else {
        chars_of(term)
    };
    let ls = lines_in(&chars_of(output));
    let ghost all = seqs(ls@);
    let commit_tag = chars_of("COMMIT:");
    let bars = chars_of("|||");
    let bar = ['|'];
    assert(bar@ =~= seq!['|']);
    let plus = ['+'];
    assert(plus@ =~= seq!['+']);
    let minus = ['-'];
    assert(minus@ =~= seq!['-']);
    let pluses = chars_of("+++");
    let minuses = chars_of("---");
    let mut done: Vec<CommitMatch> = Vec::new();
    let mut meta: Option<(String, String, String, String)> = None;
    let mut files: Vec<FileMatch> = Vec::new();
    let mut open: Option<(String, Vec<(bool, String)>)> = None;
    let mut k: usize = 0;
    assert(all.take(0) =~= Seq::<Seq<char>>::empty());
    while k < ls.len()
        invariant
            k <= ls@.len(),
            all == seqs(ls@),
            needle@ == (if case_insensitive {
                lowercase(term@)
            } else {
                term@
            }),
            commit_tag@ == "COMMIT:"@,
            bars@ == "|||"@,
            bar@ == seq!['|'],
            plus@ == seq!['+'],
            minus@ == seq!['-'],
            pluses@ == "+++"@,
            minuses@ == "---"@,
            meta is None ==> files@.len() == 0 && open is None,
            files@.len() > 0 ==> open is Some,
            ({
                let st = log_fold(all.take(k as int), term@, case_insensitive);
                &&& commit_views(done@) == st.done
                &&& st.cur == match meta {
                    Some(m) => Some(
                        open_view(
                            (m.0@, m.1@, m.2@, m.3@),
                            files@,
                            open_seq(&open),
                        ),
                    ),
                    None => None,
                }
            }),
        decreases ls@.len() - k,
    {
        assert(all.take(k + 1).drop_last() =~= all.take(k as int));
        assert(all[k as int] == ls@[k as int]@);
        let line = &ls[k];
        if starts_with_in(line, &commit_tag) {
            let rest = slice_vec(line, commit_tag.len(), line.len());
            assert(rest@ =~= line@.skip(commit_tag@.len() as int));
            if let Some(m) = meta.take() {
                let o = open.take();
                let mut fs: Vec<FileMatch> = Vec::new();
                std::mem::swap(&mut fs, &mut files);
                finish(&mut done, m, fs, o);
            }
            let (short, full, date, subject) = header_of(&rest);
            meta = Some((short, full, date, subject));
            assert(file_views(files@) =~= Seq::<FileV>::empty());
            assert(open_view(meta_of(&meta), files@, None) =~= header_commit(rest@));
        } else if meta.is_some() {
            match parse_diff_header(line) {
                Some(path) => {
                    let ghost m = meta->0;
                    let ghost mv = (m.0@, m.1@, m.2@, m.3@);
                    let ghost old_view = open_view(mv, files@, open_seq(&open));
                    let ghost old_os = open_seq(&open);
                    if let Some((p, found)) = open.take() {
                        let ghost pv = (p@, line_views(found@));
                        assert(old_os == Some((p@, found@)));
                        close_file(&mut files, p, found);
                    }
                    assert(file_views(files@) =~= old_view.files);
                    let e: Vec<(bool, String)> = Vec::new();
                    assert(line_views(e@) =~= Seq::<LineV>::empty());
                    open = Some((string_vec(&path), e));
                    assert(open_view(mv, files@, open_seq(&open)).files =~= old_view.files.push(
                        (path@, seq![]),
                    ));
                },
                None => {
                    let added = starts_with_in(line, &plus) && !starts_with_in(line, &pluses);
                    let removed = starts_with_in(line, &minus) && !starts_with_in(
                        line,
                        &minuses,
                    );
                    if open.is_some() && (added || removed) {
                        let text = string_vec(line);
                        let hay = if case_insensitive {
                            chars_of(to_lowercase(text.as_str()).as_str())
                        } else {
                            chars_of(text.as_str())
                        };
                        if contains_in(&hay, &needle) {
                            let ghost m = meta->0;
                            let ghost before = open_view(
                                (m.0@, m.1@, m.2@, m.3@),
                                files@,
                                open_seq(&open),
                            );
                            if let Some((p, mut found)) = open.take() {
                                push_line(&mut found, added, text);
                                open = Some((p, found));
                            }
                            let ghost after = open_view(
                                (m.0@, m.1@, m.2@, m.3@),
                                files@,
                                open_seq(&open),
                            );
                            assert(after.files =~= before.files.update(
                                before.files.len() - 1,
                                (
                                    before.files.last().0,
                                    before.files.last().1.push((added, line@)),
                                ),
                            ));
                        }
                    }
                },
            }
        }
        k = k + 1;
    }
    assert(all.take(all.len() as int) =~= all);
    if let Some(m) = meta.take() {
        let o = open.take();
        finish(&mut done, m, files, o);
    }
    done
}


// ── folding several terms' answers into one list ───────────────────────────

/// Whether some line of `ls` has the text `t`.
pub open spec fn has_text(ls: Seq<LineV>, t: Seq<char>) -> bool {
    exists|i: int| 0 <= i < ls.len() && ls[i].1 == t
}

/// `from`'s lines added after `into`'s, skipping each whose text is already
/// there, so a line holding two terms is listed once.
pub open spec fn merge_lines(into: Seq<LineV>, from: Seq<LineV>) -> Seq<LineV>
    decreases from.len(),
{
    if from.len() == 0 {
        into
    } else {
        let acc = merge_lines(into, from.drop_last());
        if has_text(acc, from.last().1) {
            acc
        } else {
            acc.push(from.last())
        }
    }
}

/// `i` is where the first file with path `p` stands in `fs`.
pub open spec fn is_first_path(fs: Seq<FileV>, p: Seq<char>, i: int) -> bool {
    0 <= i < fs.len() && fs[i].0 == p && forall|j: int| 0 <= j < i ==> fs[j].0 != p
}

pub open spec fn path_index(fs: Seq<FileV>, p: Seq<char>) -> Option<int> {
    if exists|i: int| is_first_path(fs, p, i) {
        Some(choose|i: int| is_first_path(fs, p, i))
    } else {
        None
    }
}

/// `from`'s files folded into `into`'s: a file already there takes the new
/// lines, another is added at the end.
pub open spec fn merge_files(into: Seq<FileV>, from: Seq<FileV>) -> Seq<FileV>
    decreases from.len(),
{
    if from.len() == 0 {
        into
    } else {
        let acc = merge_files(into, from.drop_last());
        let f = from.last();
        match path_index(acc, f.0) {
            Some(i) => acc.update(i, (acc[i].0, merge_lines(acc[i].1, f.1))),
            None => acc.push(f),
        }
    }
}

/// The same commit found by another term: its files and lines join the first
/// answer's, whose header stays.
pub open spec fn merge_commit(into: CommitV, from: CommitV) -> CommitV {
    CommitV { files: merge_files(into.files, from.files), ..into }
}

/// `i` is where the commit with hash `full` stands in `cs`.
pub open spec fn is_first_full(cs: Seq<CommitV>, full: Seq<char>, i: int) -> bool {
    0 <= i < cs.len() && cs[i].full == full && forall|j: int| 0 <= j < i ==> cs[j].full != full
}

pub open spec fn full_index(cs: Seq<CommitV>, full: Seq<char>) -> Option<int> {
    if exists|i: int| is_first_full(cs, full, i) {
        Some(choose|i: int| is_first_full(cs, full, i))
    } else {
        None
    }
}

/// One more commit for the list: merged into the one with its hash, or added
/// at the end when it is new.
pub open spec fn add_commit(acc: Seq<CommitV>, c: CommitV) -> Seq<CommitV> {
    match full_index(acc, c.full) {
        Some(i) => acc.update(i, merge_commit(acc[i], c)),
        None => acc.push(c),
    }
}

pub open spec fn add_commits(acc: Seq<CommitV>, cs: Seq<CommitV>) -> Seq<CommitV>
    decreases cs.len(),
{
    if cs.len() == 0 {
        acc
    } else {
        add_commit(add_commits(acc, cs.drop_last()), cs.last())
    }
}

/// Each term with what its `git log` printed, `None` where git could not be
/// run, as the contracts see them.
pub open spec fn run_views(runs: Seq<(String, Option<String>)>) -> Seq<(Seq<char>, Option<Seq<char>>)> {
    runs.map_values(
        |r: (String, Option<String>)|
            (
                r.0@,
                match r.1 {
                    Some(o) => Some(o@),
                    None => None,
                },
            ),
    )
}

/// Every term's commits, in the order first seen, each once.
pub open spec fn pickaxe_of(runs: Seq<(Seq<char>, Option<Seq<char>>)>, ci: bool) -> Seq<CommitV>
    decreases runs.len(),
{
    if runs.len() == 0 {
        seq![]
    } else {
        let acc = pickaxe_of(runs.drop_last(), ci);
        match runs.last().1 {
            Some(out) => add_commits(acc, parse_log_of(out, runs.last().0, ci)),
            None => acc,
        }
    }
}

fn copy_line(l: &(bool, String)) -> (r: (bool, String))
    ensures
        r.0 == l.0,
        r.1@ == l.1@,
{
    (l.0, l.1.clone())
}

fn has_line_text(ls: &Vec<(bool, String)>, t: &String) -> (b: bool)
    ensures
        b == has_text(line_views(ls@), t@),
{
    let mut i: usize = 0;
    while i < ls.len()
        invariant
            i <= ls@.len(),
            forall|j: int| 0 <= j < i ==> ls@[j].1@ != t@,
        decreases ls@.len() - i,
    {
        if ls[i].1 == *t {
            assert(line_views(ls@)[i as int].1 == t@);
            return true;
        }
        i = i + 1;
    }
    assert forall|j: int| 0 <= j < line_views(ls@).len() implies line_views(ls@)[j].1 != t@ by {
        assert(line_views(ls@)[j].1 == ls@[j].1@);
    }
    false
}

fn merge_lines_into(into: &mut Vec<(bool, String)>, from: &Vec<(bool, String)>)
    ensures
        line_views(final(into)@) == merge_lines(line_views(old(into)@), line_views(from@)),
{
    let ghost start = line_views(into@);
    let ghost fv = line_views(from@);
    let mut i: usize = 0;
    assert(fv.take(0) =~= Seq::<LineV>::empty());
    while i < from.len()
        invariant
            i <= from@.len(),
            fv == line_views(from@),
            line_views(into@) == merge_lines(start, fv.take(i as int)),
        decreases from@.len() - i,
    {
        assert(fv.take(i + 1).drop_last() =~= fv.take(i as int));
        assert(fv.take(i + 1).last() == fv[i as int]);
        let l = copy_line(&from[i]);
        if !has_line_text(into, &l.1) {
            let ghost before = line_views(into@);
            into.push(l);
            assert(line_views(into@) =~= before.push(fv[i as int]));
        }
        i = i + 1;
    }
    assert(fv.take(from@.len() as int) =~= fv);
}

fn copy_lines(ls: &Vec<(bool, String)>) -> (r: Vec<(bool, String)>)
    ensures
        line_views(r@) == line_views(ls@),
{
    let mut r: Vec<(bool, String)> = Vec::new();
    let mut i: usize = 0;
    while i < ls.len()
        invariant
            i <= ls@.len(),
            line_views(r@) == line_views(ls@).take(i as int),
        decreases ls@.len() - i,
    {
        let ghost before = line_views(r@);
        let l = copy_line(&ls[i]);
        assert((l.0, l.1@) == line_views(ls@)[i as int]);
        r.push(l);
        assert(line_views(r@) =~= before.push(line_views(ls@)[i as int]));
        assert(line_views(ls@).take(i + 1) =~= line_views(ls@).take(i as int).push(
            line_views(ls@)[i as int],
        ));
        i = i + 1;
    }
    assert(line_views(ls@).take(ls@.len() as int) =~= line_views(ls@));
    r
}

fn first_path(fs: &Vec<FileMatch>, p: &String) -> (r: Option<usize>)
    ensures
        match r {
            Some(i) => path_index(file_views(fs@), p@) == Some(i as int) && i < fs@.len(),
            None => path_index(file_views(fs@), p@) is None,
        },
{
    let ghost v = file_views(fs@);
    let mut i: usize = 0;
    while i < fs.len()
        invariant
            i <= fs@.len(),
            v == file_views(fs@),
            forall|j: int| 0 <= j < i ==> v[j].0 != p@,
        decreases fs@.len() - i,
    {
        if fs[i].path == *p {
            assert(is_first_path(v, p@, i as int));
            assert(path_index(v, p@) == Some(i as int)) by {
                let k = choose|k: int| is_first_path(v, p@, k);
                if k < i {
                } else if k > i {
                }
            }
            return Some(i);
        }
        i = i + 1;
    }
    assert(!exists|k: int| is_first_path(v, p@, k));
    None
}

fn merge_files_into(into: &mut Vec<FileMatch>, from: &Vec<FileMatch>)
    ensures
        file_views(final(into)@) == merge_files(file_views(old(into)@), file_views(from@)),
{
    let ghost start = file_views(into@);
    let ghost fv = file_views(from@);
    let mut i: usize = 0;
    assert(fv.take(0) =~= Seq::<FileV>::empty());
    while i < from.len()
        invariant
            i <= from@.len(),
            fv == file_views(from@),
            file_views(into@) == merge_files(start, fv.take(i as int)),
        decreases from@.len() - i,
    {
        assert(fv.take(i + 1).drop_last() =~= fv.take(i as int));
        assert(fv.take(i + 1).last() == fv[i as int]);
        let f = &from[i];
        let ghost acc = file_views(into@);
        match first_path(into, &f.path) {
            Some(j) => {
                let mut e = into.remove(j);
                merge_lines_into(&mut e.lines, &f.lines);
                into.insert(j, e);
                assert(file_views(into@) =~= acc.update(
                    j as int,
                    (acc[j as int].0, merge_lines(acc[j as int].1, fv[i as int].1)),
                ));
            },
            None => {
                let c = FileMatch { path: f.path.clone(), lines: copy_lines(&f.lines) };
                into.push(c);
                assert(file_views(into@) =~= acc.push(fv[i as int]));
            },
        }
        i = i + 1;
    }
    assert(fv.take(from@.len() as int) =~= fv);
}

fn first_full(cs: &Vec<CommitMatch>, full: &String) -> (r: Option<usize>)
    ensures
        match r {
            Some(i) => full_index(commit_views(cs@), full@) == Some(i as int) && i < cs@.len(),
            None => full_index(commit_views(cs@), full@) is None,
        },
{
    let ghost v = commit_views(cs@);
    let mut i: usize = 0;
    while i < cs.len()
        invariant
            i <= cs@.len(),
            v == commit_views(cs@),
            forall|j: int| 0 <= j < i ==> v[j].full != full@,
        decreases cs@.len() - i,
    {
        if cs[i].full == *full {
            assert(is_first_full(v, full@, i as int));
            assert(full_index(v, full@) == Some(i as int)) by {
                let k = choose|k: int| is_first_full(v, full@, k);
                if k < i {
                } else if k > i {
                }
            }
            return Some(i);
        }
        i = i + 1;
    }
    assert(!exists|k: int| is_first_full(v, full@, k));
    None
}

/// Fold the commits of one term's answer into the list.
fn add_all(acc: &mut Vec<CommitMatch>, found: Vec<CommitMatch>)
    ensures
        commit_views(final(acc)@) == add_commits(commit_views(old(acc)@), commit_views(found@)),
{
    let ghost start = commit_views(acc@);
    let ghost fv = commit_views(found@);
    let ghost orig = found@;
    assert(fv.take(0) =~= Seq::<CommitV>::empty());
    for c in it: found.into_iter()
        invariant
            it.seq() == orig,
            fv == commit_views(orig),
            commit_views(acc@) == add_commits(start, fv.take(it.index() as int)),
    {
        let ghost k = it.index() as int;
        assert(fv.take(k + 1).drop_last() =~= fv.take(k));
        assert(fv.take(k + 1).last() == fv[k]);
        assert(commit_view(c) == fv[k]);
        let ghost before = commit_views(acc@);
        match first_full(acc, &c.full) {
            Some(j) => {
                let mut e = acc.remove(j);
                merge_files_into(&mut e.files, &c.files);
                acc.insert(j, e);
                assert(commit_views(acc@) =~= before.update(
                    j as int,
                    merge_commit(before[j as int], fv[k]),
                ));
            },
            None => {
                acc.push(c);
                assert(commit_views(acc@) =~= before.push(fv[k]));
            },
        }
    }
    assert(fv.take(orig.len() as int) =~= fv);
}

/// Merge what git's pickaxe answered for each term into one list, by commit
/// hash, so a commit matching several terms appears once, where it was first
/// seen (roughly newest-first from the first term's run). `case_insensitive`
/// controls the line filtering as it did git's match. A term for which git
/// could not be run contributes nothing.
pub fn pickaxe(runs: &[(String, Option<String>)], case_insensitive: bool) -> (r: Vec<
    CommitMatch,
>)
    ensures
        commit_views(r@) == pickaxe_of(run_views(runs@), case_insensitive),
{
    let ghost rv = run_views(runs@);
    let mut acc: Vec<CommitMatch> = Vec::new();
    let mut k: usize = 0;
    while k < runs.len()
        invariant
            k <= runs@.len(),
            rv == run_views(runs@),
            commit_views(acc@) == pickaxe_of(rv.take(k as int), case_insensitive),
        decreases runs@.len() - k,
    {
        assert(rv.take(k + 1).drop_last() =~= rv.take(k as int));
        assert(rv.take(k + 1).last() == rv[k as int]);
        let (term, out) = &runs[k];
        match out {
            Some(o) => {
                let found = parse_log(o.as_str(), term.as_str(), case_insensitive);
                add_all(&mut acc, found);
            },
            None => {},
        }
        k = k + 1;
    }
    assert(rv.take(runs@.len() as int) =~= rv);
    acc
}


/// No two commits of `cs` have the same hash.
pub open spec fn distinct_fulls(cs: Seq<CommitV>) -> bool {
    forall|i: int, j: int| 0 <= i < j < cs.len() ==> cs[i].full != cs[j].full
}

proof fn lemma_add_commit_distinct(acc: Seq<CommitV>, c: CommitV)
    requires
        distinct_fulls(acc),
    ensures
        distinct_fulls(add_commit(acc, c)),
{
    match full_index(acc, c.full) {
        Some(i) => {
            let k = choose|k: int| is_first_full(acc, c.full, k);
            assert(is_first_full(acc, c.full, k));
            let r = acc.update(i, merge_commit(acc[i], c));
            assert forall|a: int, b: int| 0 <= a < b < r.len() implies r[a].full != r[b].full by {
                assert(r[a].full == acc[a].full);
                assert(r[b].full == acc[b].full);
            }
        },
        None => {
            assert forall|a: int| 0 <= a < acc.len() implies acc[a].full != c.full by {
                if acc[a].full == c.full {
                    lemma_some_first_full(acc, c.full, a);
                }
            }
        },
    }
}

proof fn lemma_some_first_full(cs: Seq<CommitV>, full: Seq<char>, a: int)
    requires
        0 <= a < cs.len(),
        cs[a].full == full,
    ensures
        exists|i: int| is_first_full(cs, full, i),
    decreases a,
{
    if exists|j: int| 0 <= j < a && cs[j].full == full {
        let j = choose|j: int| 0 <= j < a && cs[j].full == full;
        lemma_some_first_full(cs, full, j);
    } else {
        assert(is_first_full(cs, full, a));
    }
}

proof fn lemma_add_commits_distinct(acc: Seq<CommitV>, cs: Seq<CommitV>)
    requires
        distinct_fulls(acc),
    ensures
        distinct_fulls(add_commits(acc, cs)),
    decreases cs.len(),
{
    if cs.len() > 0 {
        lemma_add_commits_distinct(acc, cs.drop_last());
        lemma_add_commit_distinct(add_commits(acc, cs.drop_last()), cs.last());
    }
}

/// A commit that several terms match appears once in what `pickaxe` returns:
/// no two of its commits share a hash.
pub proof fn lemma_pickaxe_once_per_commit(
    runs: Seq<(Seq<char>, Option<Seq<char>>)>,
    case_insensitive: bool,
)
    ensures
        distinct_fulls(pickaxe_of(runs, case_insensitive)),
    decreases runs.len(),
{
    if runs.len() > 0 {
        lemma_pickaxe_once_per_commit(runs.drop_last(), case_insensitive);
        match runs.last().1 {
            Some(out) => lemma_add_commits_distinct(
                pickaxe_of(runs.drop_last(), case_insensitive),
                parse_log_of(out, runs.last().0, case_insensitive),
            ),
            None => {},
        }
    }
}

/// The hashes of a list of commits, in order.
pub open spec fn fulls(cs: Seq<CommitV>) -> Seq<Seq<char>> {
    cs.map_values(|c: CommitV| c.full)
}

/// `s` added to `d` in order, each hash only the first time it is seen.
pub open spec fn first_seen(d: Seq<Seq<char>>, s: Seq<Seq<char>>) -> Seq<Seq<char>>
    decreases s.len(),
{
    if s.len() == 0 {
        d
    } else {
        let x = first_seen(d, s.drop_last());
        if x.contains(s.last()) {
            x
        } else {
            x.push(s.last())
        }
    }
}

/// Every hash each term's log gave, term after term, each log in its order.
pub open spec fn found_fulls(runs: Seq<(Seq<char>, Option<Seq<char>>)>, ci: bool) -> Seq<Seq<char>>
    decreases runs.len(),
{
    if runs.len() == 0 {
        seq![]
    } else {
        found_fulls(runs.drop_last(), ci) + match runs.last().1 {
            Some(out) => fulls(parse_log_of(out, runs.last().0, ci)),
            None => seq![],
        }
    }
}

proof fn lemma_first_seen_append(d: Seq<Seq<char>>, a: Seq<Seq<char>>, b: Seq<Seq<char>>)
    ensures
        first_seen(d, a + b) == first_seen(first_seen(d, a), b),
    decreases b.len(),
{
    if b.len() == 0 {
        assert(a + b =~= a);
    } else {
        lemma_first_seen_append(d, a, b.drop_last());
        assert((a + b).drop_last() =~= a + b.drop_last());
        assert((a + b).last() == b.last());
    }
}

proof fn lemma_add_commit_fulls(acc: Seq<CommitV>, c: CommitV)
    ensures
        fulls(add_commit(acc, c)) == if fulls(acc).contains(c.full) {
            fulls(acc)
        } else {
            fulls(acc).push(c.full)
        },
{
    match full_index(acc, c.full) {
        Some(i) => {
            let k = choose|k: int| is_first_full(acc, c.full, k);
            assert(is_first_full(acc, c.full, k));
            assert(fulls(acc)[k] == c.full);
            let r = acc.update(i, merge_commit(acc[i], c));
            assert(fulls(r) =~= fulls(acc));
        },
        None => {
            assert(!fulls(acc).contains(c.full)) by {
                if fulls(acc).contains(c.full) {
                    let a = choose|a: int| 0 <= a < fulls(acc).len() && fulls(acc)[a] == c.full;
                    lemma_some_first_full(acc, c.full, a);
                }
            }
            assert(fulls(acc.push(c)) =~= fulls(acc).push(c.full));
        },
    }
}

proof fn lemma_add_commits_fulls(acc: Seq<CommitV>, cs: Seq<CommitV>)
    ensures
        fulls(add_commits(acc, cs)) == first_seen(fulls(acc), fulls(cs)),
    decreases cs.len(),
{
    if cs.len() > 0 {
        lemma_add_commits_fulls(acc, cs.drop_last());
        lemma_add_commit_fulls(add_commits(acc, cs.drop_last()), cs.last());
        assert(fulls(cs).drop_last() =~= fulls(cs.drop_last()));
        assert(fulls(cs).last() == cs.last().full);
    }
}

/// What `pickaxe` lists are exactly the commits the terms' logs found, each
/// once, in the order first seen: term after term, each log in git's order.
/// With no terms it lists nothing.
pub proof fn lemma_pickaxe_first_seen(runs: Seq<(Seq<char>, Option<Seq<char>>)>, case_insensitive: bool)
    ensures
        fulls(pickaxe_of(runs, case_insensitive)) == first_seen(seq![], found_fulls(runs, case_insensitive)),
        runs.len() == 0 ==> pickaxe_of(runs, case_insensitive).len() == 0,
    decreases runs.len(),
{
    if runs.len() > 0 {
        let d = runs.drop_last();
        lemma_pickaxe_first_seen(d, case_insensitive);
        let acc = pickaxe_of(d, case_insensitive);
        match runs.last().1 {
            Some(out) => {
                let cs = parse_log_of(out, runs.last().0, case_insensitive);
                lemma_add_commits_fulls(acc, cs);
                lemma_first_seen_append(seq![], found_fulls(d, case_insensitive), fulls(cs));
            },
            None => {
                assert(found_fulls(runs, case_insensitive) =~= found_fulls(d, case_insensitive));
            },
        }
    } else {
        assert(fulls(pickaxe_of(runs, case_insensitive)) =~= Seq::<Seq<char>>::empty());
    }
}

/// A line `parse_log` keeps: a line of the output that is a changed line of a
/// patch (`+` or `-`, not a `+++`/`---` header), marked added when it starts
/// with `+`, and holding the term.
pub open spec fn kept_line(l: LineV, ls: Seq<Seq<char>>, term: Seq<char>, ci: bool) -> bool {
    &&& ls.contains(l.1)
    &&& is_added(l.1) || is_removed(l.1)
    &&& l.0 == is_added(l.1)
    &&& line_hits(l.1, term, ci)
}

pub open spec fn commit_kept(c: CommitV, ls: Seq<Seq<char>>, term: Seq<char>, ci: bool) -> bool {
    forall|f: int, k: int|
        0 <= f < c.files.len() && 0 <= k < c.files[f].1.len() ==> kept_line(#[trigger] c.files[f].1[k], ls, term, ci)
}

/// How many of the lines are commit headers.
pub open spec fn header_count(ls: Seq<Seq<char>>) -> nat
    decreases ls.len(),
{
    if ls.len() == 0 {
        0
    } else {
        header_count(ls.drop_last()) + if starts_with(ls.last(), "COMMIT:"@) {
            1nat
        } else {
            0
        }
    }
}

proof fn lemma_kept_grows(c: CommitV, ls: Seq<Seq<char>>, term: Seq<char>, ci: bool)
    requires
        ls.len() > 0,
        commit_kept(c, ls.drop_last(), term, ci),
    ensures
        commit_kept(c, ls, term, ci),
{
    assert forall|f: int, k: int| 0 <= f < c.files.len() && 0 <= k < c.files[f].1.len() implies kept_line(#[trigger] c.files[f].1[k], ls, term, ci) by {
        let l = c.files[f].1[k];
        assert(kept_line(l, ls.drop_last(), term, ci));
        let m = choose|m: int| 0 <= m < ls.drop_last().len() && ls.drop_last()[m] == l.1;
        assert(ls[m] == l.1);
    }
}

proof fn lemma_log_fold_kept(ls: Seq<Seq<char>>, term: Seq<char>, ci: bool)
    ensures
        ({
            let st = log_fold(ls, term, ci);
            &&& st.done.len() + (if st.cur is Some { 1nat } else { 0nat }) == header_count(ls)
            &&& forall|i: int| 0 <= i < st.done.len() ==> commit_kept(#[trigger] st.done[i], ls, term, ci)
            &&& st.cur matches Some(c) ==> commit_kept(c, ls, term, ci)
        }),
    decreases ls.len(),
{
    if ls.len() > 0 {
        let d = ls.drop_last();
        let line = ls.last();
        lemma_log_fold_kept(d, term, ci);
        let st = log_fold(d, term, ci);
        assert forall|i: int| 0 <= i < st.done.len() implies commit_kept(#[trigger] st.done[i], ls, term, ci) by {
            lemma_kept_grows(st.done[i], ls, term, ci);
        }
        if let Some(c) = st.cur {
            lemma_kept_grows(c, ls, term, ci);
        }
        assert(strip_prefix(line, "COMMIT:"@) is Some <==> starts_with(line, "COMMIT:"@));
        let st2 = log_fold(ls, term, ci);
        match strip_prefix(line, "COMMIT:"@) {
            Some(rest) => {
                let h = header_commit(rest);
                assert(h.files.len() == 0);
                assert(commit_kept(h, ls, term, ci));
                assert forall|i: int| 0 <= i < st2.done.len() implies commit_kept(#[trigger] st2.done[i], ls, term, ci) by {
                    if i < st.done.len() {
                        assert(st2.done[i] == st.done[i]);
                    }
                }
            },
            None => match st.cur {
                None => {},
                Some(c) => match diff_header_path(line) {
                    Some(path) => {
                        let c2 = CommitV { files: c.files.push((path, seq![])), ..c };
                        assert forall|f: int, k: int| 0 <= f < c2.files.len() && 0 <= k < c2.files[f].1.len() implies kept_line(#[trigger] c2.files[f].1[k], ls, term, ci) by {
                            assert(f < c.files.len());
                            assert(c2.files[f] == c.files[f]);
                        }
                    },
                    None => {
                        if c.files.len() > 0 && (is_added(line) || is_removed(line)) && line_hits(line, term, ci) {
                            let f0 = c.files.last();
                            let nf = (f0.0, f0.1.push((is_added(line), line)));
                            let c2 = CommitV { files: c.files.update(c.files.len() - 1, nf), ..c };
                            assert(ls[ls.len() - 1] == line);
                            assert forall|f: int, k: int| 0 <= f < c2.files.len() && 0 <= k < c2.files[f].1.len() implies kept_line(#[trigger] c2.files[f].1[k], ls, term, ci) by {
                                if f < c.files.len() - 1 {
                                    assert(c2.files[f] == c.files[f]);
                                } else if k < f0.1.len() {
                                    assert(c2.files[f].1[k] == c.files[f].1[k]);
                                } else {
                                    assert(c2.files[f].1[k] == (is_added(line), line));
                                }
                            }
                        }
                    },
                },
            },
        }
    }
}

/// What follows `COMMIT:` on each commit header line, in order.
pub open spec fn commit_headers(ls: Seq<Seq<char>>) -> Seq<Seq<char>>
    decreases ls.len(),
{
    if ls.len() == 0 {
        seq![]
    } else {
        commit_headers(ls.drop_last()) + match strip_prefix(ls.last(), "COMMIT:"@) {
            Some(r) => seq![r],
            None => seq![],
        }
    }
}

/// A commit read from the header line whose rest is `rest`: its hashes, date
/// and subject are that line's.
pub open spec fn headed(c: CommitV, rest: Seq<char>) -> bool {
    let h = header_commit(rest);
    c.short == h.short && c.full == h.full && c.date == h.date && c.subject == h.subject
}

proof fn lemma_log_fold_order(ls: Seq<Seq<char>>, term: Seq<char>, ci: bool)
    ensures
        ({
            let st = log_fold(ls, term, ci);
            let hs = commit_headers(ls);
            &&& st.done.len() + (if st.cur is Some { 1nat } else { 0nat }) == hs.len()
            &&& forall|i: int| 0 <= i < st.done.len() ==> headed(#[trigger] st.done[i], hs[i])
            &&& st.cur matches Some(c) ==> headed(c, hs[st.done.len() as int])
        }),
    decreases ls.len(),
{
    if ls.len() > 0 {
        let d = ls.drop_last();
        let line = ls.last();
        lemma_log_fold_order(d, term, ci);
        let st = log_fold(d, term, ci);
        let hs = commit_headers(d);
        let st2 = log_fold(ls, term, ci);
        let hs2 = commit_headers(ls);
        match strip_prefix(line, "COMMIT:"@) {
            Some(rest) => {
                assert(hs2 == hs.push(rest));
                assert forall|i: int| 0 <= i < st2.done.len() implies headed(#[trigger] st2.done[i], hs2[i]) by {
                    if i < st.done.len() {
                        assert(st2.done[i] == st.done[i]);
                        assert(hs2[i] == hs[i]);
                    } else {
                        assert(st2.done[i] == st.cur->0);
                        assert(hs2[i] == hs[i]);
                    }
                }
            },
            None => {
                assert(hs2 =~= hs);
            },
        }
    }
}

/// `parse_log` gives one commit for each `COMMIT:` line of the output, in
/// the order of those lines, each carrying its line's hashes, date and
/// subject, and keeps under them only changed lines of the output (`+` or `-`, not a
/// `+++`/`---` header) that hold the term, each marked added exactly when it
/// starts with `+`.
pub proof fn lemma_parse_log_keeps(output: Seq<char>, term: Seq<char>, case_insensitive: bool)
    ensures
        parse_log_of(output, term, case_insensitive).len() == header_count(lines(output)),
        parse_log_of(output, term, case_insensitive).len() == commit_headers(lines(output)).len(),
        forall|i: int|
            0 <= i < parse_log_of(output, term, case_insensitive).len() ==> headed(
                #[trigger] parse_log_of(output, term, case_insensitive)[i],
                commit_headers(lines(output))[i],
            ),
        forall|i: int|
            0 <= i < parse_log_of(output, term, case_insensitive).len() ==> commit_kept(
                #[trigger] parse_log_of(output, term, case_insensitive)[i],
                lines(output),
                term,
                case_insensitive,
            ),
{
    lemma_log_fold_kept(lines(output), term, case_insensitive);
    lemma_log_fold_order(lines(output), term, case_insensitive);
}

/// Every line text of `small` is among `big`'s.
pub open spec fn lines_cover(big: Seq<LineV>, small: Seq<LineV>) -> bool {
    forall|k: int| 0 <= k < small.len() ==> has_text(big, #[trigger] small[k].1)
}

/// `file` is in `big` under its path, with every line text it holds.
pub open spec fn file_in(big: Seq<FileV>, file: FileV) -> bool {
    exists|j: int| 0 <= j < big.len() && (#[trigger] big[j]).0 == file.0 && lines_cover(big[j].1, file.1)
}

/// Every file of `small` is in `big` under its path, with every line text it
/// holds.
pub open spec fn files_cover(big: Seq<FileV>, small: Seq<FileV>) -> bool {
    forall|f: int| 0 <= f < small.len() ==> file_in(big, #[trigger] small[f])
}

/// `c` is in `cs` under its hash, with every file and line it holds.
pub open spec fn commit_in(cs: Seq<CommitV>, c: CommitV) -> bool {
    exists|i: int| 0 <= i < cs.len() && (#[trigger] cs[i]).full == c.full && files_cover(cs[i].files, c.files)
}

/// Every commit of `found` is in `cs` under its hash, with every file and line
/// it was found with.
pub open spec fn commits_cover(cs: Seq<CommitV>, found: Seq<CommitV>) -> bool {
    forall|k: int| 0 <= k < found.len() ==> commit_in(cs, #[trigger] found[k])
}

proof fn lemma_has_text_grows(a: Seq<LineV>, b: Seq<LineV>, t: Seq<char>)
    requires
        has_text(a, t),
        lines_cover(b, a),
    ensures
        has_text(b, t),
{
    let k = choose|k: int| 0 <= k < a.len() && a[k].1 == t;
    assert(has_text(b, a[k].1));
}

proof fn lemma_lines_cover_trans(a: Seq<LineV>, b: Seq<LineV>, c: Seq<LineV>)
    requires
        lines_cover(b, a),
        lines_cover(c, b),
    ensures
        lines_cover(c, a),
{
    assert forall|k: int| 0 <= k < a.len() implies has_text(c, #[trigger] a[k].1) by {
        lemma_has_text_grows(b, c, a[k].1);
    }
}

proof fn lemma_lines_cover_self(a: Seq<LineV>)
    ensures
        lines_cover(a, a),
{
    assert forall|k: int| 0 <= k < a.len() implies has_text(a, #[trigger] a[k].1) by {
        assert(a[k].1 == a[k].1);
    }
}

proof fn lemma_merge_lines_covers(into: Seq<LineV>, from: Seq<LineV>)
    ensures
        lines_cover(merge_lines(into, from), into),
        lines_cover(merge_lines(into, from), from),
    decreases from.len(),
{
    lemma_lines_cover_self(into);
    if from.len() > 0 {
        lemma_merge_lines_covers(into, from.drop_last());
        let acc = merge_lines(into, from.drop_last());
        let r = merge_lines(into, from);
        assert(lines_cover(r, acc)) by {
            assert forall|k: int| 0 <= k < acc.len() implies has_text(r, #[trigger] acc[k].1) by {
                if !has_text(acc, from.last().1) {
                    assert(r[k] == acc[k]);
                }
            }
        }
        lemma_lines_cover_trans(into, acc, r);
        assert forall|k: int| 0 <= k < from.len() implies has_text(r, #[trigger] from[k].1) by {
            if k < from.len() - 1 {
                assert(from[k] == from.drop_last()[k]);
                assert(has_text(acc, from.drop_last()[k].1));
                lemma_has_text_grows(acc, r, from[k].1);
            } else if !has_text(acc, from.last().1) {
                assert(r[acc.len() as int] == from.last());
            } else {
                lemma_has_text_grows(acc, r, from.last().1);
            }
        }
    }
}

/// The file at `j` of `big` carries `file`'s path and covers its lines.
proof fn lemma_file_at(big: Seq<FileV>, file: FileV, j: int)
    requires
        0 <= j < big.len(),
        big[j].0 == file.0,
        lines_cover(big[j].1, file.1),
    ensures
        file_in(big, file),
{
    assert(0 <= j < big.len() && big[j].0 == file.0 && lines_cover(big[j].1, file.1));
}

proof fn lemma_file_in_trans(b: Seq<FileV>, c: Seq<FileV>, file: FileV)
    requires
        file_in(b, file),
        files_cover(c, b),
    ensures
        file_in(c, file),
{
    let j = choose|j: int| 0 <= j < b.len() && (#[trigger] b[j]).0 == file.0 && lines_cover(b[j].1, file.1);
    assert(file_in(c, b[j]));
    let m = choose|m: int| 0 <= m < c.len() && (#[trigger] c[m]).0 == b[j].0 && lines_cover(c[m].1, b[j].1);
    lemma_lines_cover_trans(file.1, b[j].1, c[m].1);
    lemma_file_at(c, file, m);
}

proof fn lemma_files_cover_trans(a: Seq<FileV>, b: Seq<FileV>, c: Seq<FileV>)
    requires
        files_cover(b, a),
        files_cover(c, b),
    ensures
        files_cover(c, a),
{
    assert forall|f: int| 0 <= f < a.len() implies file_in(c, #[trigger] a[f]) by {
        lemma_file_in_trans(b, c, a[f]);
    }
}

proof fn lemma_files_cover_self(a: Seq<FileV>)
    ensures
        files_cover(a, a),
{
    assert forall|f: int| 0 <= f < a.len() implies file_in(a, #[trigger] a[f]) by {
        lemma_lines_cover_self(a[f].1);
        lemma_file_at(a, a[f], f);
    }
}

proof fn lemma_merge_files_covers(into: Seq<FileV>, from: Seq<FileV>)
    ensures
        files_cover(merge_files(into, from), into),
        files_cover(merge_files(into, from), from),
    decreases from.len(),
{
    lemma_files_cover_self(into);
    if from.len() > 0 {
        lemma_merge_files_covers(into, from.drop_last());
        let acc = merge_files(into, from.drop_last());
        let f = from.last();
        let r = merge_files(into, from);
        match path_index(acc, f.0) {
            Some(i) => {
                let k = choose|k: int| is_first_path(acc, f.0, k);
                assert(is_first_path(acc, f.0, k));
                assert(k == i);
                lemma_merge_lines_covers(acc[i].1, f.1);
                assert forall|g: int| 0 <= g < acc.len() implies file_in(r, #[trigger] acc[g]) by {
                    if g == i {
                        lemma_file_at(r, acc[g], g);
                    } else {
                        assert(r[g] == acc[g]);
                        lemma_lines_cover_self(acc[g].1);
                        lemma_file_at(r, acc[g], g);
                    }
                }
                lemma_file_at(r, f, i);
            },
            None => {
                assert forall|g: int| 0 <= g < acc.len() implies file_in(r, #[trigger] acc[g]) by {
                    assert(r[g] == acc[g]);
                    lemma_lines_cover_self(acc[g].1);
                    lemma_file_at(r, acc[g], g);
                }
                assert(r[acc.len() as int] == f);
                lemma_lines_cover_self(f.1);
                lemma_file_at(r, f, acc.len() as int);
            },
        }
        assert(files_cover(r, acc));
        lemma_files_cover_trans(into, acc, r);
        lemma_files_cover_trans(from.drop_last(), acc, r);
        assert forall|g: int| 0 <= g < from.len() implies file_in(r, #[trigger] from[g]) by {
            if g < from.len() - 1 {
                assert(from[g] == from.drop_last()[g]);
            }
        }
    }
}

/// The commit at `i` of `cs` carries `c`'s hash and covers its files.
proof fn lemma_commit_at(cs: Seq<CommitV>, c: CommitV, i: int)
    requires
        0 <= i < cs.len(),
        cs[i].full == c.full,
        files_cover(cs[i].files, c.files),
    ensures
        commit_in(cs, c),
{
    assert(0 <= i < cs.len() && cs[i].full == c.full && files_cover(cs[i].files, c.files));
}

/// Adding a commit keeps every commit already there, each under its hash with
/// all it had, and the new one is there under its hash with all of its files
/// and lines.
proof fn lemma_add_commit_covers(acc: Seq<CommitV>, c: CommitV)
    ensures
        commits_cover(add_commit(acc, c), acc),
        commit_in(add_commit(acc, c), c),
{
    let r = add_commit(acc, c);
    match full_index(acc, c.full) {
        Some(i) => {
            let k = choose|k: int| is_first_full(acc, c.full, k);
            assert(is_first_full(acc, c.full, k));
            lemma_merge_files_covers(acc[i].files, c.files);
            assert forall|g: int| 0 <= g < acc.len() implies commit_in(r, #[trigger] acc[g]) by {
                if g != i {
                    assert(r[g] == acc[g]);
                    lemma_files_cover_self(acc[g].files);
                }
                lemma_commit_at(r, acc[g], g);
            }
            lemma_commit_at(r, c, i);
        },
        None => {
            assert forall|g: int| 0 <= g < acc.len() implies commit_in(r, #[trigger] acc[g]) by {
                assert(r[g] == acc[g]);
                lemma_files_cover_self(acc[g].files);
                lemma_commit_at(r, acc[g], g);
            }
            assert(r[acc.len() as int] == c);
            lemma_files_cover_self(c.files);
            lemma_commit_at(r, c, acc.len() as int);
        },
    }
}

proof fn lemma_commit_in_trans(b: Seq<CommitV>, c: Seq<CommitV>, x: CommitV)
    requires
        commit_in(b, x),
        commits_cover(c, b),
    ensures
        commit_in(c, x),
{
    let j = choose|j: int| 0 <= j < b.len() && (#[trigger] b[j]).full == x.full && files_cover(b[j].files, x.files);
    assert(commit_in(c, b[j]));
    let m = choose|m: int| 0 <= m < c.len() && (#[trigger] c[m]).full == b[j].full && files_cover(c[m].files, b[j].files);
    lemma_files_cover_trans(x.files, b[j].files, c[m].files);
    lemma_commit_at(c, x, m);
}

proof fn lemma_commits_cover_trans(a: Seq<CommitV>, b: Seq<CommitV>, c: Seq<CommitV>)
    requires
        commits_cover(b, a),
        commits_cover(c, b),
    ensures
        commits_cover(c, a),
{
    assert forall|k: int| 0 <= k < a.len() implies commit_in(c, #[trigger] a[k]) by {
        lemma_commit_in_trans(b, c, a[k]);
    }
}

proof fn lemma_commits_cover_concat(cs: Seq<CommitV>, a: Seq<CommitV>, b: Seq<CommitV>)
    requires
        commits_cover(cs, a),
        commits_cover(cs, b),
    ensures
        commits_cover(cs, a + b),
{
    assert forall|k: int| 0 <= k < (a + b).len() implies commit_in(cs, #[trigger] (a + b)[k]) by {
        if k < a.len() {
            assert((a + b)[k] == a[k]);
        } else {
            assert((a + b)[k] == b[k - a.len()]);
        }
    }
}

proof fn lemma_commits_cover_self(a: Seq<CommitV>)
    ensures
        commits_cover(a, a),
{
    assert forall|k: int| 0 <= k < a.len() implies commit_in(a, #[trigger] a[k]) by {
        lemma_files_cover_self(a[k].files);
        lemma_commit_at(a, a[k], k);
    }
}

proof fn lemma_add_commits_covers(acc: Seq<CommitV>, cs: Seq<CommitV>)
    ensures
        commits_cover(add_commits(acc, cs), acc),
        commits_cover(add_commits(acc, cs), cs),
    decreases cs.len(),
{
    if cs.len() == 0 {
        lemma_commits_cover_self(acc);
    } else {
        lemma_add_commits_covers(acc, cs.drop_last());
        let mid = add_commits(acc, cs.drop_last());
        let r = add_commits(acc, cs);
        lemma_add_commit_covers(mid, cs.last());
        lemma_commits_cover_trans(acc, mid, r);
        lemma_commits_cover_trans(cs.drop_last(), mid, r);
        assert forall|k: int| 0 <= k < cs.len() implies commit_in(r, #[trigger] cs[k]) by {
            if k < cs.len() - 1 {
                assert(cs[k] == cs.drop_last()[k]);
            }
        }
    }
}

/// Every commit each term's log found, term after term.
pub open spec fn found_commits(runs: Seq<(Seq<char>, Option<Seq<char>>)>, ci: bool) -> Seq<CommitV>
    decreases runs.len(),
{
    if runs.len() == 0 {
        seq![]
    } else {
        found_commits(runs.drop_last(), ci) + match runs.last().1 {
            Some(out) => parse_log_of(out, runs.last().0, ci),
            None => seq![],
        }
    }
}

/// A commit several terms match is listed once with its files merged: every
/// commit any term's log found is in what `pickaxe` returns under its hash,
/// with every file it was found with and every line text it held.
pub proof fn lemma_pickaxe_merges_files(runs: Seq<(Seq<char>, Option<Seq<char>>)>, case_insensitive: bool)
    ensures
        commits_cover(pickaxe_of(runs, case_insensitive), found_commits(runs, case_insensitive)),
    decreases runs.len(),
{
    if runs.len() == 0 {
        lemma_commits_cover_self(seq![]);
    } else {
        let d = runs.drop_last();
        lemma_pickaxe_merges_files(d, case_insensitive);
        let acc = pickaxe_of(d, case_insensitive);
        match runs.last().1 {
            Some(out) => {
                let cs = parse_log_of(out, runs.last().0, case_insensitive);
                lemma_add_commits_covers(acc, cs);
                let r = add_commits(acc, cs);
                lemma_commits_cover_trans(found_commits(d, case_insensitive), acc, r);
                lemma_commits_cover_concat(r, found_commits(d, case_insensitive), cs);
            },
            None => {
                assert(found_commits(runs, case_insensitive) =~= found_commits(d, case_insensitive));
            },
        }
    }
}

} // verus!
