//! The top-level help: the commands split in two, the ones that print and
//! exit, then the ones that take over the terminal. The pairs line up across
//! the two groups (`scan`/`iscan`, `repos`/`irepos`, `trace`/`ilog`), which is
//! the shape of the tool. The commands and the escape codes that paint their
//! names are the argument parser's; laying them out is decided here.

use crate::text::{
    chars_of, concat, lines, lines_in, seqs, spaces, starts_with, string_of,
};
use vstd::prelude::*;

verus! {

/// A command is interactive when its name starts with `i`, which is already
/// the rule the verbs are named by rather than a second list kept beside them.
pub open spec fn interactive(name: Seq<char>) -> bool {
    starts_with(name, seq!['i'])
}

pub fn is_interactive(name: &str) -> (b: bool)
    ensures
        b == interactive(name@),
{
    let i = ['i'];
    assert(i@ =~= seq!['i']);
    crate::text::starts_with_in(&chars_of(name), &i)
}

/// The lines after a command's first, each indented to the column its first
/// line starts at.
pub open spec fn rest_rows(ls: Seq<Seq<char>>, width: nat) -> Seq<char>
    decreases ls.len(),
{
    if ls.len() == 0 {
        seq![]
    } else {
        rest_rows(ls.drop_last(), width) + "  "@ + spaces(width) + "  "@ + ls.last() + "\n"@
    }
}

/// One command's rows: its name, painted between `lit.0` and `lit.1` and
/// padded to `width` outside the paint (escape codes are zero-width to a
/// reader and full-width to padding), then its description, whose extra
/// lines line up under the first.
pub open spec fn entry_of(name: Seq<char>, about: Seq<char>, width: nat, lit: (Seq<char>, Seq<char>)) -> Seq<char> {
    let ls = lines(about);
    let first = if ls.len() > 0 {
        ls[0]
    } else {
        seq![]
    };
    "  "@ + lit.0 + name + lit.1 + spaces((width - name.len()) as nat) + "  "@ + first + "\n"@
        + rest_rows(if ls.len() > 0 {
        ls.drop_first()
    } else {
        seq![]
    }, width)
}

fn spaces_in(n: usize) -> (v: Vec<char>)
    ensures
        v@ == spaces(n as nat),
{
    let mut v: Vec<char> = Vec::new();
    while v.len() < n
        invariant
            v@ == spaces(v@.len()),
            v@.len() <= n,
        decreases n - v@.len(),
    {
        v.push(' ');
        assert(v@ =~= spaces(v@.len()));
    }
    v
}

pub fn entry(name: &str, about: &str, width: usize, lit: (&str, &str)) -> (s: Vec<char>)
    requires
        name@.len() <= width,
    ensures
        s@ == entry_of(name@, about@, width as nat, (lit.0@, lit.1@)),
{
    let n = chars_of(name);
    let ls = lines_in(&chars_of(about));
    let mut row = concat(&concat(&chars_of("  "), &chars_of(lit.0)), &n);
    row = concat(&row, &chars_of(lit.1));
    row = concat(&row, &spaces_in(width - n.len()));
    row = concat(&row, &chars_of("  "));
    if ls.len() > 0 {
        row = concat(&row, &ls[0]);
    }
    row = concat(&row, &chars_of("\n"));
    let ghost head = row@;
    let ghost lv = seqs(ls@);
    let ghost rest = if lv.len() > 0 {
        lv.drop_first()
    } else {
        seq![]
    };
    assert(head == "  "@ + lit.0@ + name@ + lit.1@ + spaces((width - name@.len()) as nat) + "  "@
        + (if lv.len() > 0 {
        lv[0]
    } else {
        seq![]
    }) + "\n"@);
    let pad = spaces_in(width);
    let mut k: usize = 1;
    while k < ls.len()
        invariant
            1 <= k,
            k <= ls@.len() || ls@.len() == 0,
            ls@.len() == 0 ==> k == 1,
            lv == seqs(ls@),
            lv == lines(about@),
            rest == (if lv.len() > 0 {
                lv.drop_first()
            } else {
                seq![]
            }),
            pad@ == spaces(width as nat),
            row@ == head + rest_rows(rest.take(k - 1), width as nat),
        decreases ls@.len() - k,
    {
        assert(rest.take(k as int).drop_last() =~= rest.take(k - 1));
        assert(rest.take(k as int).last() == ls@[k as int]@);
        row = concat(&row, &chars_of("  "));
        row = concat(&row, &pad);
        row = concat(&row, &chars_of("  "));
        row = concat(&row, &ls[k]);
        row = concat(&row, &chars_of("\n"));
        k = k + 1;
    }
    if ls.len() > 0 {
        assert(rest.take(ls@.len() - 1) =~= rest);
    } else {
        assert(rest.take(0) =~= rest);
    }
    assert(row@ =~= entry_of(name@, about@, width as nat, (lit.0@, lit.1@)));
    row
}

/// The widest command name, in characters.
pub open spec fn widest(cmds: Seq<(Seq<char>, Seq<char>)>) -> nat
    decreases cmds.len(),
{
    if cmds.len() == 0 {
        0
    } else {
        let w = widest(cmds.drop_last());
        if cmds.last().0.len() > w {
            cmds.last().0.len()
        } else {
            w
        }
    }
}

proof fn lemma_widest(cmds: Seq<(Seq<char>, Seq<char>)>, i: int)
    requires
        0 <= i < cmds.len(),
    ensures
        cmds[i].0.len() <= widest(cmds),
    decreases cmds.len(),
{
    if i < cmds.len() - 1 {
        lemma_widest(cmds.drop_last(), i);
    }
}

/// The rows of one group: those of its commands, in order.
pub open spec fn group_rows(
    cmds: Seq<(Seq<char>, Seq<char>)>,
    tui: bool,
    width: nat,
    lit: (Seq<char>, Seq<char>),
) -> Seq<char>
    decreases cmds.len(),
{
    if cmds.len() == 0 {
        seq![]
    } else {
        let c = cmds.last();
        group_rows(cmds.drop_last(), tui, width, lit) + if interactive(c.0) == tui {
            entry_of(c.0, c.1, width, lit)
        } else {
            seq![]
        }
    }
}

/// The command list: a heading painted between `head.0` and `head.1`, then
/// the plain commands, a blank line, and the same for the interactive ones,
/// all in one column width so the two lists line up with each other.
pub open spec fn command_list_of(
    cmds: Seq<(Seq<char>, Seq<char>)>,
    head: (Seq<char>, Seq<char>),
    lit: (Seq<char>, Seq<char>),
) -> Seq<char> {
    let w = widest(cmds);
    head.0 + "Commands:"@ + head.1 + "\n"@ + group_rows(cmds, false, w, lit) + "\n"@ + head.0
        + "Interactive (TUI):"@ + head.1 + "\n"@ + group_rows(cmds, true, w, lit) + "\n"@
}

/// The whole help template around the list, in the argument parser's own
/// placeholders.
pub open spec fn template_of(
    cmds: Seq<(Seq<char>, Seq<char>)>,
    head: (Seq<char>, Seq<char>),
    lit: (Seq<char>, Seq<char>),
) -> Seq<char> {
    "{about-with-newline}\n{usage-heading} {usage}\n\n"@ + command_list_of(cmds, head, lit) + head.0
        + "Options:"@ + head.1 + "\n{options}{after-help}\n"@
}

pub open spec fn cmd_views(v: Seq<(String, String)>) -> Seq<(Seq<char>, Seq<char>)> {
    v.map_values(|c: (String, String)| (c.0@, c.1@))
}

fn group(cmds: &[(String, String)], tui: bool, width: usize, lit: (&str, &str)) -> (s: Vec<char>)
    requires
        forall|i: int| 0 <= i < cmds@.len() ==> cmds@[i].0@.len() <= width,
    ensures
        s@ == group_rows(cmd_views(cmds@), tui, width as nat, (lit.0@, lit.1@)),
{
    let ghost cv = cmd_views(cmds@);
    let mut s: Vec<char> = Vec::new();
    let mut k: usize = 0;
    while k < cmds.len()
        invariant
            k <= cmds@.len(),
            cv == cmd_views(cmds@),
            forall|i: int| 0 <= i < cmds@.len() ==> cmds@[i].0@.len() <= width,
            s@ == group_rows(cv.take(k as int), tui, width as nat, (lit.0@, lit.1@)),
        decreases cmds@.len() - k,
    {
        assert(cv.take(k + 1).drop_last() =~= cv.take(k as int));
        assert(cv.take(k + 1).last() == (cmds@[k as int].0@, cmds@[k as int].1@));
        if is_interactive(cmds[k].0.as_str()) == tui {
            s = concat(&s, &entry(cmds[k].0.as_str(), cmds[k].1.as_str(), width, lit));
        }
        k = k + 1;
    }
    assert(cv.take(cmds@.len() as int) =~= cv);
    s
}

/// `slu --help`'s template: the commands, named and described, in two groups
/// (`head` paints the headings and `lit` the names), inside the parser's own
/// placeholders for the rest.
pub fn help_template(cmds: &[(String, String)], head: (&str, &str), lit: (&str, &str)) -> (s: String)
    ensures
        s@ == template_of(cmd_views(cmds@), (head.0@, head.1@), (lit.0@, lit.1@)),
{
    let ghost cv = cmd_views(cmds@);
    let mut width: usize = 0;
    let mut k: usize = 0;
    while k < cmds.len()
        invariant
            k <= cmds@.len(),
            cv == cmd_views(cmds@),
            width == widest(cv.take(k as int)),
        decreases cmds@.len() - k,
    {
        assert(cv.take(k + 1).drop_last() =~= cv.take(k as int));
        let n = chars_of(cmds[k].0.as_str()).len();
        if n > width {
            width = n;
        }
        k = k + 1;
    }
    assert(cv.take(cmds@.len() as int) =~= cv);
    proof {
        assert forall|i: int| 0 <= i < cmds@.len() implies cmds@[i].0@.len() <= width by {
            lemma_widest(cv, i);
        }
    }
    let h0 = chars_of(head.0);
    let h1 = chars_of(head.1);
    let nl = chars_of("\n");
    let mut s = chars_of("{about-with-newline}\n{usage-heading} {usage}\n\n");
    s = concat(&s, &h0);
    s = concat(&s, &chars_of("Commands:"));
    s = concat(&s, &h1);
    s = concat(&s, &nl);
    s = concat(&s, &group(cmds, false, width, lit));
    s = concat(&s, &nl);
    s = concat(&s, &h0);
    s = concat(&s, &chars_of("Interactive (TUI):"));
    s = concat(&s, &h1);
    s = concat(&s, &nl);
    s = concat(&s, &group(cmds, true, width, lit));
    s = concat(&s, &nl);
    s = concat(&s, &h0);
    s = concat(&s, &chars_of("Options:"));
    s = concat(&s, &h1);
    s = concat(&s, &chars_of("\n{options}{after-help}\n"));
    string_of(&s)
}

/// `part` stands somewhere in `whole`, as a run of its characters.
pub open spec fn holds(whole: Seq<char>, part: Seq<char>) -> bool {
    exists|p: int| 0 <= p && p + part.len() <= whole.len() && #[trigger] whole.subrange(p, p + part.len()) == part
}

/// Every command's rows stand in the group its name puts it in: an
/// interactive one under `Interactive (TUI):`, any other under `Commands:`.
pub proof fn lemma_each_command_in_its_group(
    cmds: Seq<(Seq<char>, Seq<char>)>,
    w: nat,
    lit: (Seq<char>, Seq<char>),
    i: int,
)
    requires
        0 <= i < cmds.len(),
    ensures
        holds(group_rows(cmds, interactive(cmds[i].0), w, lit), entry_of(cmds[i].0, cmds[i].1, w, lit)),
    decreases cmds.len(),
{
    let tui = interactive(cmds[i].0);
    let e = entry_of(cmds[i].0, cmds[i].1, w, lit);
    let front = group_rows(cmds.drop_last(), tui, w, lit);
    let whole = group_rows(cmds, tui, w, lit);
    if i == cmds.len() - 1 {
        assert(whole == front + e);
        assert(whole.subrange(front.len() as int, (front.len() + e.len()) as int) =~= e);
    } else {
        lemma_each_command_in_its_group(cmds.drop_last(), w, lit, i);
        assert(cmds.drop_last()[i] == cmds[i]);
        let p = choose|p: int| 0 <= p && p + e.len() <= front.len() && #[trigger] front.subrange(p, p + e.len()) == e;
        assert(whole.subrange(p, p + e.len()) =~= front.subrange(p, p + e.len()));
    }
}

} // verus!
