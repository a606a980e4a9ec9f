//! Handing a file to the user's `git difftool` and taking the terminal back:
//! what is compared, and what the run came to. Tearing the screen down,
//! running the tool and reading what it said are the program's part.

use crate::num::{decimal, decimal_of};
use crate::text::{
    chars_of, concat, join, join_in, lines, lines_in, same, seqs, slice_vec, string_of, trim_end,
    words, words_in,
};
use crate::tui::sat_sub;
use crate::tui::widgets::{Modal, ModalV, Tone};
use vstd::prelude::*;

verus! {

/// git's magic empty-tree hash - the "before" side for a root commit that has
/// no parent to diff against.
pub const EMPTY_TREE: &'static str = "4b825dc642cb6eb9a060e54bf8d69288fbee4904";

/// How many lines of the tool's complaint the modal keeps: enough to explain a
/// failure, never enough to fill the screen with it.
pub const MAX_ERR_LINES: usize = 40;

/// What came back from handing the terminal over.
pub enum DiffTool {
    /// The tool ran and had nothing to say.
    Quiet,
    /// A one-liner for the status line: something happened, but there is
    /// nothing to read about it.
    Note(String),
    /// It failed and said why. The caller shows this until it is dismissed.
    Failed(Modal),
}

/// Whether `git rev-list --parents -n 1 <hash>` names a parent besides the
/// commit itself.
pub fn has_parent(listing: Option<&str>) -> (b: bool)
    ensures
        b == match listing {
            Some(out) => words(out@).len() > 1,
            None => false,
        },
{
    match listing {
        Some(out) => words_in(&chars_of(out)).len() > 1,
        None => false,
    }
}

/// The "before" side of a commit's diff: its first parent, or the empty tree
/// for a root commit, mirroring what `git show` displays.
pub fn diff_base(hash: &str, has_parent: bool) -> (s: String)
    ensures
        s@ == if has_parent {
            hash@ + seq!['^']
        } else {
            EMPTY_TREE@
        },
{
    if has_parent {
        let caret = ['^'];
        assert(caret@ =~= seq!['^']);
        string_of(&concat(&chars_of(hash), &caret))
    } else {
        string_of(&chars_of(EMPTY_TREE))
    }
}

/// The tail of what the tool printed: line ends trimmed, blanks dropped,
/// consecutive repeats collapsed, because `difftool -y` walks a file at a time
/// and says the same thing about each one.
pub open spec fn said_lines(ls: Seq<Seq<char>>) -> Seq<Seq<char>>
    decreases ls.len(),
{
    if ls.len() == 0 {
        seq![]
    } else {
        let acc = said_lines(ls.drop_last());
        let l = trim_end(ls.last());
        if l.len() == 0 || (acc.len() > 0 && acc.last() == l) {
            acc
        } else {
            acc.push(l)
        }
    }
}

/// The last `MAX_ERR_LINES` of those, one per line.
pub open spec fn tail_of(said: Seq<char>) -> Seq<char> {
    let ls = said_lines(lines(said));
    join(ls.skip(sat_sub(ls.len() as int, MAX_ERR_LINES as int)), seq!['\n'])
}

fn trim_end_in(s: &[char]) -> (v: Vec<char>)
    ensures
        v@ == trim_end(s@),
{
    let mut b: usize = s.len();
    assert(s@.subrange(0, b as int) =~= s@);
    while b > 0 && crate::text::char_is_ws(s[b - 1])
        invariant
            b <= s@.len(),
            trim_end(s@) == trim_end(s@.subrange(0, b as int)),
        decreases b,
    {
        assert(s@.subrange(0, b as int).drop_last() =~= s@.subrange(0, b - 1));
        b = b - 1;
    }
    slice_vec(s, 0, b)
}

pub fn tail(said: &str) -> (s: String)
    ensures
        s@ == tail_of(said@),
{
    let ls = lines_in(&chars_of(said));
    let ghost all = seqs(ls@);
    let mut kept: Vec<Vec<char>> = Vec::new();
    let mut k: usize = 0;
    while k < ls.len()
        invariant
            k <= ls@.len(),
            all == seqs(ls@),
            seqs(kept@) == said_lines(all.take(k as int)),
        decreases ls@.len() - k,
    {
        assert(all.take(k + 1).drop_last() =~= all.take(k as int));
        assert(all.take(k + 1).last() == ls@[k as int]@);
        let l = trim_end_in(&ls[k]);
        let n = kept.len();
        let repeat = n > 0 && same(&kept[n - 1], &l);
        if n > 0 {
            assert(seqs(kept@).last() == kept@[n - 1]@);
        }
        if l.len() > 0 && !repeat {
            let ghost before = seqs(kept@);
            let ghost lv = l@;
            kept.push(l);
            assert(seqs(kept@) =~= before.push(lv));
        } else if l.len() == 0 {
            assert(l@ =~= Seq::<char>::empty());
        }
        k = k + 1;
    }
    assert(all.take(ls@.len() as int) =~= all);
    let n = kept.len();
    let start = if n > MAX_ERR_LINES {
        n - MAX_ERR_LINES
    } else {
        0
    };
    let mut last: Vec<Vec<char>> = Vec::new();
    let mut j: usize = start;
    while j < n
        invariant
            start <= j <= n == kept@.len(),
            seqs(last@) == seqs(kept@).subrange(start as int, j as int),
        decreases n - j,
    {
        let ghost before = seqs(last@);
        let w = slice_vec(&kept[j], 0, kept[j].len());
        assert(w@ =~= kept@[j as int]@);
        last.push(w);
        assert(seqs(last@) =~= before.push(kept@[j as int]@));
        assert(seqs(kept@).subrange(start as int, j + 1) =~= seqs(kept@).subrange(start as int, j as int).push(seqs(kept@)[j as int]));
        j = j + 1;
    }
    assert(seqs(kept@).subrange(start as int, n as int) =~= seqs(kept@).skip(start as int));
    let nl = ['\n'];
    assert(nl@ =~= seq!['\n']);
    string_of(&join_in(&last, &nl))
}

/// What the box says when no difftool is set: what Enter does, why it cannot,
/// and how to set one.
pub open spec fn no_difftool_body() -> Seq<char> {
    "Enter hands the file to `git difftool`, but neither diff.tool nor merge.tool is set, so there is nothing to open it with.\n\nSet one and try again, for example:\n\n    git config --global diff.tool vimdiff\n\n`git difftool --tool-help` lists the tools your git can drive."@
}

/// The box shown instead of tearing the screen down when neither `diff.tool`
/// nor `merge.tool` is set: an alert titled ` no difftool configured `.
pub fn no_difftool() -> (d: DiffTool)
    ensures
        d matches DiffTool::Failed(m) && m@ == (ModalV {
            title: " no difftool configured "@,
            body: no_difftool_body(),
            scroll: 0,
            tone: Tone::Alert,
        }),
{
    DiffTool::Failed(
        Modal::new(
            string_of(&chars_of(" no difftool configured ")),
            string_of(
                &chars_of(
                    "Enter hands the file to `git difftool`, but neither diff.tool nor merge.tool is set, so there is nothing to open it with.\n\nSet one and try again, for example:\n\n    git config --global diff.tool vimdiff\n\n`git difftool --tool-help` lists the tools your git can drive.",
                ),
            ),
        ),
    )
}

/// How the tool's run ended: it could not start (why), or it exited with a
/// success flag, an exit code when it had one, and the tail of what it said.
pub enum Handoff {
    NotStarted(String),
    Exited { success: bool, code: Option<i32>, said: String },
}

/// The exit code in words, or that a signal ended it.
pub open spec fn code_words(code: Option<i32>) -> Seq<char> {
    match code {
        Some(c) => if c < 0 {
            seq!['-'] + decimal((-c) as nat)
        } else {
            decimal(c as nat)
        },
        None => "a signal"@,
    }
}

fn code_text(code: Option<i32>) -> (v: Vec<char>)
    ensures
        v@ == code_words(code),
{
    match code {
        Some(c) => if c < 0 {
            let m = ['-'];
            assert(m@ =~= seq!['-']);
            let n: u64 = if c == i32::MIN {
                2147483648
            } else {
                (-c) as u64
            };
            concat(&m, &decimal_of(n))
        } else {
            decimal_of(c as u64)
        },
        None => chars_of("a signal"),
    }
}

/// What a run of the tool came to: a tool that could not start is a box; one
/// that ran fine and was quit with a non-zero code (vim's `:cq`) and said
/// nothing has nothing to explain, so it is a note; one that failed and said
/// why is a box with its words; anything else is quiet.
pub fn outcome(h: Handoff) -> (d: DiffTool)
    ensures
        match h {
            Handoff::NotStarted(e) => d matches DiffTool::Failed(m) && m@.title
                == " difftool would not start "@ && m@.body == "Could not run git difftool: "@
                + e@,
            Handoff::Exited { success, code, said } => if success {
                d is Quiet
            } else if said@.len() == 0 {
                d matches DiffTool::Note(n) && n@ == "difftool exited with status "@ + code_words(
                    code,
                )
            } else {
                d matches DiffTool::Failed(m) && m@.title == " difftool failed "@ && m@.body
                    == "git difftool exited with status "@ + code_words(code) + ".\n\n"@ + said@
            },
        },
{
    match h {
        Handoff::NotStarted(e) => {
            let body = concat(&chars_of("Could not run git difftool: "), &chars_of(e.as_str()));
            DiffTool::Failed(
                Modal::new(string_of(&chars_of(" difftool would not start ")), string_of(&body)),
            )
        },
        Handoff::Exited { success, code, said } => {
            if success {
                return DiffTool::Quiet;
            }
            let c = code_text(code);
            if said.as_str().is_empty() {
                let n = concat(&chars_of("difftool exited with status "), &c);
                DiffTool::Note(string_of(&n))
            } else {
                let a = concat(&chars_of("git difftool exited with status "), &c);
                let b = concat(&a, &chars_of(".\n\n"));
                let body = concat(&b, &chars_of(said.as_str()));
                DiffTool::Failed(
                    Modal::new(string_of(&chars_of(" difftool failed ")), string_of(&body)),
                )
            }
        },
    }
}

} // verus!
