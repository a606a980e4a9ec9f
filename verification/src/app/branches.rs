//! The branches level: one repo's branches, how each stands against its
//! upstream, and which of them the slider's tabs keep.

use crate::git::load::Branch;
use crate::num::{decimal, decimal_of, is_digit, parse_u32, parse_unsigned};
use crate::text::{chars_of, concat, contains, contains_in, find, find_in, slice_vec, string_of};
use vstd::prelude::*;

verus! {

/// Whether `a..b` is the first run of ASCII digits in `s`: nothing before `a`
/// is a digit, everything from `a` to `b` is, and `b` ends the run.
pub open spec fn digit_run_at(s: Seq<char>, a: int, b: int) -> bool {
    &&& 0 <= a < b <= s.len()
    &&& forall|j: int| 0 <= j < a ==> !is_digit(#[trigger] s[j])
    &&& forall|j: int| a <= j < b ==> is_digit(#[trigger] s[j])
    &&& b == s.len() || !is_digit(s[b])
}

/// The first run of ASCII digits in `s`: the first piece that splitting on
/// every non-digit leaves non-empty.
pub open spec fn first_digit_run(s: Seq<char>) -> Option<Seq<char>> {
    if exists|a: int, b: int| digit_run_at(s, a, b) {
        let (a, b) = choose|a: int, b: int| digit_run_at(s, a, b);
        Some(s.subrange(a, b))
    } else {
        None
    }
}

/// The number after `key` in a `%(upstream:track)` string like
/// `[ahead 2, behind 1]`, when there is one and it fits a `u32`.
pub open spec fn track_count(track: Seq<char>, key: Seq<char>) -> Option<nat> {
    match find(track, key) {
        Some(i) => match first_digit_run(track.skip(i + key.len())) {
            Some(run) => parse_unsigned(run, u32::MAX as nat),
            None => None,
        },
        None => None,
    }
}

fn digit(c: char) -> (b: bool)
    ensures
        b == is_digit(c),
{
    '0' <= c && c <= '9'
}

/// The first run of digits in `s`, as the piece itself.
fn digit_run(s: &[char]) -> (r: Option<Vec<char>>)
    ensures
        match r {
            Some(v) => first_digit_run(s@) == Some(v@),
            None => first_digit_run(s@) is None,
        },
{
    let n = s.len();
    let mut a: usize = 0;
    while a < n && !digit(s[a])
        invariant
            a <= n == s@.len(),
            forall|j: int| 0 <= j < a ==> !is_digit(#[trigger] s@[j]),
        decreases n - a,
    {
        a = a + 1;
    }
    if a == n {
        assert forall|x: int, y: int| !digit_run_at(s@, x, y) by {
            if digit_run_at(s@, x, y) {
                assert(!is_digit(s@[x]));
            }
        }
        return None;
    }
    let mut b: usize = a + 1;
    while b < n && digit(s[b])
        invariant
            a < b <= n == s@.len(),
            forall|j: int| a <= j < b ==> is_digit(#[trigger] s@[j]),
        decreases n - b,
    {
        b = b + 1;
    }
    assert(digit_run_at(s@, a as int, b as int));
    let ghost (x, y) = choose|x: int, y: int| digit_run_at(s@, x, y);
    assert(x == a) by {
        if x < a {
            assert(!is_digit(s@[x]));
        } else if x > a {
            assert(!is_digit(s@[a as int]));
        }
    }
    assert(y == b) by {
        if y < b {
            assert(is_digit(s@[y]));
        } else if y > b {
            assert(is_digit(s@[b as int]));
        }
    }
    Some(slice_vec(s, a, b))
}

/// Pull the number after `key` out of a `%(upstream:track)` string like
/// `[ahead 2, behind 1]`.
pub fn count(track: &str, key: &str) -> (r: Option<u32>)
    ensures
        match r {
            Some(v) => track_count(track@, key@) == Some(v as nat),
            None => track_count(track@, key@) is None,
        },
{
    let t = chars_of(track);
    let k = chars_of(key);
    match find_in(&t, &k) {
        Some(i) => {
            proof {
                crate::text::lemma_find_props(t@, k@);
                assert(crate::text::is_first_match(t@, k@, i as int));
            }
            let tl = t.len();
            let rest = slice_vec(&t, i + k.len(), tl);
            assert(rest@ =~= t@.skip(i + k@.len()));
            match digit_run(&rest) {
                Some(run) => parse_u32(&run),
                None => None,
            }
        },
        None => None,
    }
}

/// Short push-state text: "no remote", "gone", "↑N ↓M", or "synced"; nothing
/// for a remote branch.
pub open spec fn push_text(remote: bool, has_upstream: bool, track: Seq<char>) -> Seq<char> {
    if remote {
        seq![]
    } else if !has_upstream {
        "no remote"@
    } else if contains(track, "gone"@) {
        "gone"@
    } else {
        match (track_count(track, "ahead"@), track_count(track, "behind"@)) {
            (Some(a), Some(b)) => seq!['↑'] + decimal(a) + seq![' ', '↓'] + decimal(b),
            (Some(a), None) => seq!['↑'] + decimal(a),
            (None, Some(b)) => seq!['↓'] + decimal(b),
            (None, None) => "synced"@,
        }
    }
}

impl Branch {
    /// A local branch that isn't fully on a remote: never pushed (no
    /// upstream), its upstream was deleted (`[gone]`), or it's ahead of its
    /// upstream.
    pub fn unpushed(&self) -> (b: bool)
        ensures
            b == (!self.remote && (!self.has_upstream || contains(self.track@, "gone"@)
                || contains(self.track@, "ahead"@))),
    {
        let t = chars_of(self.track.as_str());
        !self.remote && (!self.has_upstream || contains_in(&t, &chars_of("gone")) || contains_in(
            &t,
            &chars_of("ahead"),
        ))
    }

    /// Short push-state text: "no remote", "gone", "↑N ↓M", or "synced".
    pub fn status(&self) -> (s: String)
        ensures
            s@ == push_text(self.remote, self.has_upstream, self.track@),
    {
        if self.remote {
            return string_of(&[]);
        }
        if !self.has_upstream {
            return string_of(&chars_of("no remote"));
        }
        let t = chars_of(self.track.as_str());
        if contains_in(&t, &chars_of("gone")) {
            return string_of(&chars_of("gone"));
        }
        let ahead = count(self.track.as_str(), "ahead");
        let behind = count(self.track.as_str(), "behind");
        let up = ['↑'];
        let down = ['↓'];
        let gap = [' ', '↓'];
        assert(up@ =~= seq!['↑']);
        assert(down@ =~= seq!['↓']);
        assert(gap@ =~= seq![' ', '↓']);
        let v = match (ahead, behind) {
            (Some(a), Some(b)) => {
                let x = concat(&up, &decimal_of(a as u64));
                let y = concat(&x, &gap);
                concat(&y, &decimal_of(b as u64))
            },
            (Some(a), None) => concat(&up, &decimal_of(a as u64)),
            (None, Some(b)) => concat(&down, &decimal_of(b as u64)),
            (None, None) => chars_of("synced"),
        };
        string_of(&v)
    }
}

/// Which slice of branches the top pane shows.
#[derive(Clone, Copy, PartialEq, Eq, Debug, Structural)]
pub enum Scope {
    Local,
    All,
    Remote,
}

/// How many stops the slider has.
pub const SCOPE_COUNT: usize = 3;

pub const DEFAULT_SCOPE: usize = 0;

/// Left→right order for the `h`/`l` slider; `All` in the middle.
pub open spec fn scope_at(i: usize) -> Scope {
    if i == 0 {
        Scope::Local
    } else if i == 1 {
        Scope::All
    } else {
        Scope::Remote
    }
}

impl Scope {
    /// The stop at `i` on the slider.
    pub fn at(i: usize) -> (s: Scope)
        requires
            i < SCOPE_COUNT,
        ensures
            s == scope_at(i),
    {
        if i == 0 {
            Scope::Local
        } else if i == 1 {
            Scope::All
        } else {
            Scope::Remote
        }
    }

    pub fn label(self) -> (s: &'static str)
        ensures
            s@ == match self {
                Scope::Local => "local"@,
                Scope::All => "all"@,
                Scope::Remote => "remote"@,
            },
    {
        match self {
            Scope::Local => "local",
            Scope::All => "all",
            Scope::Remote => "remote",
        }
    }

    pub fn keeps(self, b: &Branch) -> (k: bool)
        ensures
            k == match self {
                Scope::Local => !b.remote,
                Scope::Remote => b.remote,
                Scope::All => true,
            },
    {
        match self {
            Scope::Local => !b.remote,
            Scope::Remote => b.remote,
            Scope::All => true,
        }
    }
}

/// Everything about a branch a filter can match: its name, how it stands
/// against its upstream, when it last moved and who moved it.
pub fn haystack(b: &Branch) -> (s: String)
    ensures
        s@ == b.name@ + seq![' '] + push_text(b.remote, b.has_upstream, b.track@) + seq![' ']
            + b.rel@ + seq![' '] + b.author@,
{
    let sp = [' '];
    assert(sp@ =~= seq![' ']);
    let status = b.status();
    let mut v = concat(&chars_of(b.name.as_str()), &sp);
    v = concat(&v, &chars_of(status.as_str()));
    v = concat(&v, &sp);
    v = concat(&v, &chars_of(b.rel.as_str()));
    v = concat(&v, &sp);
    v = concat(&v, &chars_of(b.author.as_str()));
    string_of(&v)
}

impl crate::app::rows::Listed for Branch {
    type Scope = Scope;

    open spec fn key_of(&self) -> Seq<char> {
        self.name@
    }

    fn key(&self) -> (s: &str) {
        self.name.as_str()
    }

    open spec fn hay_of(&self) -> Seq<char> {
        self.name@ + seq![' '] + push_text(self.remote, self.has_upstream, self.track@) + seq![' ']
            + self.rel@ + seq![' '] + self.author@
    }

    fn hay(&self) -> (s: String) {
        haystack(self)
    }

    open spec fn in_scope(&self, s: Scope, unpushed: Seq<Seq<char>>) -> bool {
        match s {
            Scope::Local => !self.remote,
            Scope::Remote => self.remote,
            Scope::All => true,
        }
    }

    fn keeps_in(&self, s: Scope, unpushed: &Vec<String>) -> (b: bool) {
        s.keeps(self)
    }
}

} // verus!
