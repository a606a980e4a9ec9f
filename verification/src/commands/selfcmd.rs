//! `slu self` - manage the installed binary itself: what `self update` and
//! `self check` decide, the installing and the asking being the program's.

use crate::history::{lowercase, to_lowercase};
use crate::num::{parse_u64, parse_unsigned};
use crate::text::{
    before_first, before_first_in, chars_of, lines, lines_in, seqs, split, split_in, string_of,
    strip_prefix, trim, trim_in,
};
use vstd::prelude::*;

verus! {

/// The crate `cargo install` and `cargo search` are asked about, the name it
/// is published under even though the command typed is shorter.
pub const CRATE: &'static str = "sluuz";

/// What `slu self` was asked to do.
pub enum Cmd {
    /// Reinstall the latest release from crates.io.
    Update(UpdateArgs),
    /// Ask crates.io whether a newer release exists, without installing
    /// anything.
    Check,
}

pub struct UpdateArgs {
    /// Skip the confirmation prompt.
    pub yes: bool,
}

/// What `slu self` does first.
#[derive(Clone, Copy, PartialEq, Eq, Debug, Structural)]
pub enum Step {
    /// Ask before reinstalling; a bare Enter cancels.
    Confirm,
    /// Reinstall straight away.
    Install,
    /// Compare with the newest release.
    Check,
}

/// The first thing `slu self <cmd>` does: an update asks first unless told
/// `-y`, a check goes straight to asking the registry.
pub fn run(cmd: &Cmd) -> (s: Step)
    ensures
        s == match cmd {
            Cmd::Update(args) => if args.yes {
                Step::Install
            } else {
                Step::Confirm
            },
            Cmd::Check => Step::Check,
        },
{
    match cmd {
        Cmd::Update(args) => if args.yes {
            Step::Install
        } else {
            Step::Confirm
        },
        Cmd::Check => Step::Check,
    }
}

/// Whether the answer typed at the prompt is a yes: `y` or `yes` in any case,
/// with blanks around it.
pub open spec fn is_yes_of(input: Seq<char>) -> bool {
    let t = lowercase(trim(input));
    t == seq!['y'] || t == "yes"@
}

pub fn is_yes(input: &str) -> (b: bool)
    ensures
        b == is_yes_of(input@),
{
    let t = string_of(&trim_in(&chars_of(input)));
    let l = chars_of(to_lowercase(t.as_str()).as_str());
    let y = ['y'];
    assert(y@ =~= seq!['y']);
    crate::text::same(&l, &y) || crate::text::same(&l, &chars_of("yes"))
}

/// One field of a version, as `parse::<u64>().unwrap_or(0)` reads it.
pub open spec fn field_value(p: Seq<char>) -> nat {
    match parse_unsigned(p, u64::MAX as nat) {
        Some(v) => v,
        None => 0,
    }
}

/// A version's fields, split at every `.` and `-`.
pub open spec fn version_fields(v: Seq<char>) -> Seq<nat> {
    split(v.map_values(|c: char| if c == '-' { '.' } else { c }), seq!['.']).map_values(
        |p: Seq<char>| field_value(p),
    )
}

/// `a > b` for lists of numbers the way `Vec`'s `Ord` compares them: at the
/// first field that differs, or the longer when one is a prefix of the other.
pub open spec fn fields_gt(a: Seq<nat>, b: Seq<nat>) -> bool
    decreases a.len(),
{
    if a.len() == 0 {
        false
    } else if b.len() == 0 {
        true
    } else if a[0] != b[0] {
        a[0] > b[0]
    } else {
        fields_gt(a.drop_first(), b.drop_first())
    }
}

fn fields_of(v: &str) -> (r: Vec<u64>)
    ensures
        r@.map_values(|x: u64| x as nat) == version_fields(v@),
{
    let cs = chars_of(v);
    let mut m: Vec<char> = Vec::new();
    let mut k: usize = 0;
    while k < cs.len()
        invariant
            k <= cs@.len(),
            m@ == cs@.take(k as int).map_values(|c: char| if c == '-' { '.' } else { c }),
        decreases cs@.len() - k,
    {
        let c = if cs[k] == '-' {
            '.'
        } else {
            cs[k]
        };
        m.push(c);
        assert(cs@.take(k + 1) =~= cs@.take(k as int).push(cs@[k as int]));
        assert(m@ =~= cs@.take(k + 1).map_values(|c: char| if c == '-' { '.' } else { c }));
        k = k + 1;
    }
    assert(cs@.take(cs@.len() as int) =~= cs@);
    let dot = ['.'];
    assert(dot@ =~= seq!['.']);
    let parts = split_in(&m, &dot);
    let ghost ps = seqs(parts@);
    let mut r: Vec<u64> = Vec::new();
    let mut j: usize = 0;
    while j < parts.len()
        invariant
            j <= parts@.len(),
            ps == seqs(parts@),
            r@.map_values(|x: u64| x as nat) == ps.take(j as int).map_values(
                |p: Seq<char>| field_value(p),
            ),
        decreases parts@.len() - j,
    {
        let x = match parse_u64(&parts[j]) {
            Some(x) => x,
            None => 0,
        };
        assert(x as nat == field_value(ps[j as int]));
        let ghost before = r@.map_values(|x: u64| x as nat);
        r.push(x);
        assert(r@.map_values(|x: u64| x as nat) =~= before.push(x as nat));
        assert(ps.take(j + 1) =~= ps.take(j as int).push(ps[j as int]));
        assert(r@.map_values(|x: u64| x as nat) =~= ps.take(j + 1).map_values(
            |p: Seq<char>| field_value(p),
        ));
        j = j + 1;
    }
    assert(ps.take(parts@.len() as int) =~= ps);
    r
}

/// Compare dotted versions field by field, so `0.10.0` correctly beats
/// `0.9.9` where a plain string compare would not.
pub fn newer(a: &str, b: &str) -> (r: bool)
    ensures
        r == fields_gt(version_fields(a@), version_fields(b@)),
{
    let fa = fields_of(a);
    let fb = fields_of(b);
    let ghost va = fa@.map_values(|x: u64| x as nat);
    let ghost vb = fb@.map_values(|x: u64| x as nat);
    let mut i: usize = 0;
    assert(va.skip(0) =~= va);
    assert(vb.skip(0) =~= vb);
    while i < fa.len() && i < fb.len() && fa[i] == fb[i]
        invariant
            i <= fa@.len(),
            i <= fb@.len(),
            va == fa@.map_values(|x: u64| x as nat),
            vb == fb@.map_values(|x: u64| x as nat),
            fields_gt(va, vb) == fields_gt(va.skip(i as int), vb.skip(i as int)),
        decreases fa@.len() - i,
    {
        let ghost (sa, sb) = (va.skip(i as int), vb.skip(i as int));
        assert(sa[0] == vb.skip(i as int)[0]);
        assert(sa.drop_first() =~= va.skip(i + 1));
        assert(sb.drop_first() =~= vb.skip(i + 1));
        i = i + 1;
    }
    if i == fa.len() {
        false
    } else if i == fb.len() {
        true
    } else {
        assert(va.skip(i as int)[0] == fa@[i as int] as nat);
        assert(vb.skip(i as int)[0] == fb@[i as int] as nat);
        fa[i] > fb[i]
    }
}

proof fn lemma_fields_gt_asymmetric(a: Seq<nat>, b: Seq<nat>)
    ensures
        !(fields_gt(a, b) && fields_gt(b, a)),
        !fields_gt(a, a),
    decreases a.len(),
{
    if a.len() > 0 && b.len() > 0 && a[0] == b[0] {
        lemma_fields_gt_asymmetric(a.drop_first(), b.drop_first());
    }
    if a.len() > 0 {
        lemma_fields_gt_asymmetric(a.drop_first(), a.drop_first());
    }
}

/// No release is newer than itself, and of two releases at most one is newer
/// than the other.
pub proof fn lemma_newer_is_strict(a: Seq<char>, b: Seq<char>)
    ensures
        !fields_gt(version_fields(a), version_fields(a)),
        !(fields_gt(version_fields(a), version_fields(b)) && fields_gt(
            version_fields(b),
            version_fields(a),
        )),
{
    lemma_fields_gt_asymmetric(version_fields(a), version_fields(b));
    lemma_fields_gt_asymmetric(version_fields(a), version_fields(a));
}

/// The version `cargo search sluuz --limit 1` names for the crate itself: the
/// line `sluuz = "X.Y.Z"    # description` of an exact name match, up to the
/// closing quote.
pub open spec fn listed_version(text: Seq<char>) -> Option<Seq<char>> {
    let prefix = "sluuz = \""@;
    let ls = lines(text);
    if exists|i: int| 0 <= i < ls.len() && strip_prefix(ls[i], prefix) is Some {
        let i = choose|i: int|
            0 <= i < ls.len() && strip_prefix(ls[i], prefix) is Some && forall|j: int|
                0 <= j < i ==> strip_prefix(ls[j], prefix) is None;
        Some(before_first(strip_prefix(ls[i], prefix)->0, '"'))
    } else {
        None
    }
}

/// What `cargo search` printed, read for the newest release: the version, or
/// why there is none.
pub fn latest_of(text: &str) -> (r: Result<String, String>)
    ensures
        match r {
            Ok(v) => listed_version(text@) == Some(v@),
            Err(e) => listed_version(text@) is None && e@
                == "the registry did not list `sluuz`"@,
        },
{
    let prefix = chars_of("sluuz = \"");
    let ls = lines_in(&chars_of(text));
    let ghost all = seqs(ls@);
    let mut k: usize = 0;
    while k < ls.len()
        invariant
            k <= ls@.len(),
            all == seqs(ls@),
            all == lines(text@),
            prefix@ == "sluuz = \""@,
            forall|j: int| 0 <= j < k ==> strip_prefix(all[j], prefix@) is None,
        decreases ls@.len() - k,
    {
        assert(all[k as int] == ls@[k as int]@);
        match crate::text::strip_prefix_in(&ls[k], &prefix) {
            Some(rest) => {
                let ghost i = choose|i: int|
                    0 <= i < all.len() && strip_prefix(all[i], prefix@) is Some && forall|j: int|
                        0 <= j < i ==> strip_prefix(all[j], prefix@) is None;
                assert(strip_prefix(all[k as int], prefix@) is Some && forall|j: int|
                    0 <= j < k ==> strip_prefix(all[j], prefix@) is None);
                assert(i == k) by {
                    if i < k {
                    } else if i > k {
                    }
                }
                return Ok(string_of(&before_first_in(&rest, '"')));
            },
            None => {},
        }
        k = k + 1;
    }
    Err(string_of(&chars_of("the registry did not list `sluuz`")))
}

/// What a check came to.
pub enum Checked {
    /// This release is newer than the one installed.
    Newer(String),
    /// The installed one is the latest.
    Latest,
    /// The registry could not be asked: why.
    Unreachable(String),
}

/// What `self check` says, from what asking the registry came back with and
/// the version installed.
pub fn checked(latest: Result<String, String>, current: &str) -> (c: Checked)
    ensures
        match latest {
            Ok(v) => if fields_gt(version_fields(v@), version_fields(current@)) {
                c matches Checked::Newer(n) && n@ == v@
            } else {
                c is Latest
            },
            Err(e) => c matches Checked::Unreachable(m) && m@ == e@,
        },
{
    match latest {
        Ok(v) => if newer(v.as_str(), current) {
            Checked::Newer(v)
        } else {
            Checked::Latest
        },
        Err(e) => Checked::Unreachable(e),
    }
}

} // verus!
