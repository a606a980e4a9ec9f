//! `istash`: the commits level walking the stash instead of a branch. A stash
//! is a merge commit whose first parent is the HEAD it was made on, so the
//! files pane and the diff show exactly what it holds; its rows are named by
//! position (`stash@{2}`), which is also what `git stash` takes.

use crate::num::{decimal, decimal_of};
use crate::text::{
    chars_of, concat, join, join_in, lines, lines_in, seqs, slice_vec, starts_with,
    starts_with_in, string_of, strip_prefix,
};
use vstd::prelude::*;

verus! {

/// How many of git's lines a failed apply or pop shows.
pub const STASH_WORDS: usize = 5;

/// What `git log` walks for the stash list: its reflog, newest first, which
/// is the order `stash@{n}` counts in.
pub fn stash_log() -> (v: Vec<String>)
    ensures
        v@.len() == 2,
        v@[0]@ == "-g"@,
        v@[1]@ == "refs/stash"@,
{
    let mut v = Vec::new();
    v.push(string_of(&chars_of("-g")));
    v.push(string_of(&chars_of("refs/stash")));
    v
}

/// The name a stash row goes by: its place in the reflog.
pub fn stash_name(i: usize) -> (s: String)
    ensures
        s@ == "stash@{"@ + decimal(i as nat) + seq!['}'],
{
    let close = ['}'];
    assert(close@ =~= seq!['}']);
    let a = concat(&chars_of("stash@{"), &decimal_of(i as u64));
    string_of(&concat(&a, &close))
}

/// What a failed apply or pop says, line by line so far: the lines kept and
/// how many of git's own words are among them.
pub open spec fn failure_fold(ls: Seq<Seq<char>>) -> (Seq<Seq<char>>, nat)
    decreases ls.len(),
{
    if ls.len() == 0 {
        (seq![], 0)
    } else {
        let (out, said) = failure_fold(ls.drop_last());
        let line = ls.last();
        if starts_with(line, "The stash entry is kept"@) || line == "Aborting"@ {
            (out, said)
        } else {
            match strip_prefix(line, seq!['\t']) {
                Some(path) => (out.push(seq!['-', ' '] + path), said),
                None => if said < STASH_WORDS {
                    (out.push(line), said + 1)
                } else {
                    (out, said)
                },
            }
        }
    }
}

/// git's words for a failed apply or pop, cut to `STASH_WORDS` lines, with
/// the files it indents with a tab listed as `- path` and never cut, since a
/// list of them is what the user has to go and fix. git's "kept" and
/// "Aborting" say nothing a title does not.
pub fn failure_lines(words: &str) -> (s: String)
    ensures
        s@ == join(failure_fold(lines(words@)).0, seq!['\n']),
{
    let ls = lines_in(&chars_of(words));
    let ghost all = seqs(ls@);
    let kept_tag = chars_of("The stash entry is kept");
    let aborting = chars_of("Aborting");
    let tab = ['\t'];
    assert(tab@ =~= seq!['\t']);
    let dash = ['-', ' '];
    assert(dash@ =~= seq!['-', ' ']);
    let mut out: Vec<Vec<char>> = Vec::new();
    let mut said: usize = 0;
    let mut k: usize = 0;
    while k < ls.len()
        invariant
            k <= ls@.len(),
            all == seqs(ls@),
            kept_tag@ == "The stash entry is kept"@,
            aborting@ == "Aborting"@,
            tab@ == seq!['\t'],
            dash@ == seq!['-', ' '],
            (seqs(out@), said as nat) == failure_fold(all.take(k as int)),
            said <= k,
        decreases ls@.len() - k,
    {
        assert(all.take(k + 1).drop_last() =~= all.take(k as int));
        assert(all.take(k + 1).last() == ls@[k as int]@);
        let line = &ls[k];
        if starts_with_in(line, &kept_tag) || crate::text::same(line, &aborting) {
        } else {
            match crate::text::strip_prefix_in(line, &tab) {
                Some(path) => {
                    let ghost before = seqs(out@);
                    let l = concat(&dash, &path);
                    out.push(l);
                    assert(seqs(out@) =~= before.push(l@));
                },
                None => {
                    if said < STASH_WORDS {
                        let ghost before = seqs(out@);
                        let l = slice_vec(line, 0, line.len());
                        assert(l@ =~= line@);
                        out.push(l);
                        assert(seqs(out@) =~= before.push(line@));
                        said = said + 1;
                    }
                },
            }
        }
        k = k + 1;
    }
    assert(all.take(ls@.len() as int) =~= all);
    let nl = ['\n'];
    assert(nl@ =~= seq!['\n']);
    string_of(&join_in(&out, &nl))
}

/// Whether `stash@{n}` still names the stash that was read: what git resolves
/// the name to now is its hash.
pub fn still_names(now: Option<&str>, hash: &str) -> (b: bool)
    ensures
        b == match now {
            Some(n) => n@ == hash@,
            None => false,
        },
{
    match now {
        Some(n) => crate::text::same(&chars_of(n), &chars_of(hash)),
        None => false,
    }
}

/// The box a failed apply or pop of `name` shows. A conflict is the one
/// failure `-q` says nothing about beyond the stash being kept, and it still
/// puts the changes in the tree, markers and all, so the unmerged files are
/// what to say; anything else git said is a refusal that changed nothing.
pub open spec fn apply_failure_of(
    name: Seq<char>,
    pop: bool,
    out: Seq<char>,
    unmerged: Seq<char>,
) -> (Seq<char>, Seq<char>) {
    let verb = if pop {
        "pop"@
    } else {
        "apply"@
    };
    let refused = join(failure_fold(lines(out)).0, seq!['\n']).len() > 0;
    if !refused && unmerged.len() > 0 {
        (
            seq!['`'] + name + "` applied with conflicts"@,
            join(
                failure_fold(
                    lines(
                        "resolve them in:\n\t"@ + tab_indented(unmerged) + if pop {
                            "\nthe stash is kept"@
                        } else {
                            seq![]
                        },
                    ),
                ).0,
                seq!['\n'],
            ),
        )
    } else {
        ("could not "@ + verb + " `"@ + name + seq!['`'], join(failure_fold(lines(out)).0, seq!['\n']))
    }
}

/// Every line after the first indented with a tab: `replace('\n', "\n\t")`.
pub open spec fn tab_indented(s: Seq<char>) -> Seq<char> {
    s.flat_map(|c: char| if c == '\n' { seq!['\n', '\t'] } else { seq![c] })
}

fn tabbed(s: &str) -> (r: Vec<char>)
    ensures
        r@ == tab_indented(s@),
{
    let cs = chars_of(s);
    let ghost f = |c: char| if c == '\n' { seq!['\n', '\t'] } else { seq![c] };
    let mut r: Vec<char> = Vec::new();
    let mut k: usize = 0;
    assert(cs@.take(0).flat_map(f) =~= Seq::<char>::empty()) by {
        reveal_with_fuel(Seq::<_>::flat_map, 1);
    }
    while k < cs.len()
        invariant
            k <= cs@.len(),
            f == (|c: char| if c == '\n' { seq!['\n', '\t'] } else { seq![c] }),
            r@ == cs@.take(k as int).flat_map(f),
        decreases cs@.len() - k,
    {
        let ghost before = r@;
        if cs[k] == '\n' {
            r.push('\n');
            r.push('\t');
        } else {
            r.push(cs[k]);
        }
        proof {
            lemma_flat_map_push(cs@.take(k as int), cs@[k as int], f);
            assert(cs@.take(k + 1) =~= cs@.take(k as int).push(cs@[k as int]));
        }
        assert(r@ =~= before + f(cs@[k as int]));
        k = k + 1;
    }
    assert(cs@.take(cs@.len() as int) =~= cs@);
    r
}

proof fn lemma_flat_map_push(s: Seq<char>, c: char, f: spec_fn(char) -> Seq<char>)
    ensures
        s.push(c).flat_map(f) == s.flat_map(f) + f(c),
{
    s.lemma_flat_map_push(f, c);
}

/// The box a failed apply or pop of `name` shows, from what git said (`out`)
/// and the files it left unmerged.
pub fn apply_failure(name: &str, pop: bool, out: &str, unmerged: &str) -> (r: (String, String))
    ensures
        (r.0@, r.1@) == apply_failure_of(name@, pop, out@, unmerged@),
{
    let tick = ['`'];
    assert(tick@ =~= seq!['`']);
    let n = chars_of(name);
    let said = failure_lines(out);
    let refused = !said.as_str().is_empty();
    if !refused && !unmerged.is_empty() {
        let a = concat(&tick, &n);
        let title = concat(&a, &chars_of("` applied with conflicts"));
        let b = concat(&chars_of("resolve them in:\n\t"), &tabbed(unmerged));
        let words = if pop {
            concat(&b, &chars_of("\nthe stash is kept"))
        } else {
            b
        };
        assert(!pop ==> words@ =~= words@ + Seq::<char>::empty());
        let body = failure_lines(string_of(&words).as_str());
        (string_of(&title), body)
    } else {
        let verb = if pop {
            chars_of("pop")
        } else {
            chars_of("apply")
        };
        let a = concat(&chars_of("could not "), &verb);
        let b = concat(&a, &chars_of(" `"));
        let c = concat(&b, &n);
        (string_of(&concat(&c, &tick)), said)
    }
}

} // verus!
