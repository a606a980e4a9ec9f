//! Text as sequences of characters: the primitives every parser in the crate
//! is built from, each stated over `Seq<char>`.
//!
//! The specifications follow `str`'s own methods: `split` with a string
//! pattern, `split_once`, `lines`, `trim`, `strip_prefix`, `parse::<u64>()`.

use vstd::prelude::*;

verus! {

// ── matching ────────────────────────────────────────────────────────────────

/// `p` occurs in `s` starting at `i`.
pub open spec fn matches_at(s: Seq<char>, p: Seq<char>, i: int) -> bool {
    0 <= i && i + p.len() <= s.len() && s.subrange(i, i + p.len()) == p
}

/// `i` is where `p` first occurs in `s`.
pub open spec fn is_first_match(s: Seq<char>, p: Seq<char>, i: int) -> bool {
    matches_at(s, p, i) && forall|j: int| 0 <= j < i ==> !matches_at(s, p, j)
}

/// `p` occurs somewhere in `s` (`str::contains`).
pub open spec fn contains(s: Seq<char>, p: Seq<char>) -> bool {
    exists|i: int| matches_at(s, p, i)
}

/// Where `p` first occurs in `s` (`str::find`).
pub open spec fn find(s: Seq<char>, p: Seq<char>) -> Option<int> {
    if exists|i: int| is_first_match(s, p, i) {
        Some(choose|i: int| is_first_match(s, p, i))
    } else {
        None
    }
}

pub proof fn lemma_first_match_unique(s: Seq<char>, p: Seq<char>, i: int, j: int)
    requires
        is_first_match(s, p, i),
        is_first_match(s, p, j),
    ensures
        i == j,
{
}

/// A match anywhere means there is a first one, and `find` names it.
pub proof fn lemma_find_some(s: Seq<char>, p: Seq<char>, k: int)
    requires
        matches_at(s, p, k),
    ensures
        find(s, p) is Some,
        is_first_match(s, p, find(s, p)->0),
        find(s, p)->0 <= k,
    decreases k,
{
    if forall|j: int| 0 <= j < k ==> !matches_at(s, p, j) {
        assert(is_first_match(s, p, k));
    } else {
        let j = choose|j: int| 0 <= j < k && matches_at(s, p, j);
        lemma_find_some(s, p, j);
    }
    let i = find(s, p)->0;
    if i > k {
        assert(matches_at(s, p, k));
    }
}

pub proof fn lemma_find_is(s: Seq<char>, p: Seq<char>, i: int)
    requires
        is_first_match(s, p, i),
    ensures
        find(s, p) == Some(i),
{
    lemma_find_some(s, p, i);
    lemma_first_match_unique(s, p, i, find(s, p)->0);
}

pub proof fn lemma_find_none(s: Seq<char>, p: Seq<char>)
    requires
        forall|j: int| !matches_at(s, p, j),
    ensures
        find(s, p) is None,
        !contains(s, p),
{
}

/// `s` begins with `p`.
pub open spec fn starts_with(s: Seq<char>, p: Seq<char>) -> bool {
    p.len() <= s.len() && s.take(p.len() as int) == p
}

/// `s` ends with `p`.
pub open spec fn ends_with(s: Seq<char>, p: Seq<char>) -> bool {
    p.len() <= s.len() && s.skip(s.len() - p.len()) == p
}

/// `str::strip_prefix`.
pub open spec fn strip_prefix(s: Seq<char>, p: Seq<char>) -> Option<Seq<char>> {
    if starts_with(s, p) {
        Some(s.skip(p.len() as int))
    } else {
        None
    }
}

/// `str::strip_suffix`.
pub open spec fn strip_suffix(s: Seq<char>, p: Seq<char>) -> Option<Seq<char>> {
    if ends_with(s, p) {
        Some(s.take(s.len() - p.len()))
    } else {
        None
    }
}

/// `s.strip_suffix(p).unwrap_or(s)`.
pub open spec fn drop_suffix(s: Seq<char>, p: Seq<char>) -> Seq<char> {
    if ends_with(s, p) {
        s.take(s.len() - p.len())
    } else {
        s
    }
}

/// `str::split` with a non-empty pattern: the pieces between the matches,
/// found left to right without overlapping. Always at least one piece.
pub open spec fn split(s: Seq<char>, p: Seq<char>) -> Seq<Seq<char>>
    decreases s.len(),
{
    if p.len() == 0 {
        seq![s]
    } else {
        match find(s, p) {
            Some(i) => if 0 <= i && i + p.len() <= s.len() {
                seq![s.take(i)] + split(s.skip(i + p.len()), p)
            } else {
                seq![s]
            },
            None => seq![s],
        }
    }
}

/// `str::split_once`.
pub open spec fn split_once(s: Seq<char>, p: Seq<char>) -> Option<(Seq<char>, Seq<char>)> {
    match find(s, p) {
        Some(i) => Some((s.take(i), s.skip(i + p.len()))),
        None => None,
    }
}

/// One line as `str::lines` hands it back: its `\n` gone, and a `\r` just
/// before that `\n` gone with it.
pub open spec fn strip_cr(l: Seq<char>) -> Seq<char> {
    if l.len() > 0 && l.last() == '\r' {
        l.drop_last()
    } else {
        l
    }
}

/// `str::lines`: split on `\n`, a final `\n` ending the last line rather than
/// starting an empty one, and `\r\n` counting as one line ending.
pub open spec fn lines(s: Seq<char>) -> Seq<Seq<char>> {
    if s.len() == 0 {
        seq![]
    } else {
        let parts = split(s, seq!['\n']);
        let ended = parts.drop_last().map_values(|l: Seq<char>| strip_cr(l));
        if s.last() == '\n' {
            ended
        } else {
            ended.push(parts.last())
        }
    }
}

/// The texts held by a list of character vectors.
/// What a list of strings holds.
pub open spec fn string_views(v: Seq<String>) -> Seq<Seq<char>> {
    v.map_values(|s: String| s@)
}

pub open spec fn seqs(v: Seq<Vec<char>>) -> Seq<Seq<char>> {
    v.map_values(|x: Vec<char>| x@)
}

/// What `find` says about the match it names.
pub proof fn lemma_find_props(s: Seq<char>, p: Seq<char>)
    ensures
        find(s, p) matches Some(i) ==> is_first_match(s, p, i),
{
}

/// What `rsplit(c).next()` hands back: everything after the last `c`, or all
/// of `s` when there is none.
pub open spec fn is_last_char(s: Seq<char>, c: char, i: int) -> bool {
    0 <= i < s.len() && s[i] == c && forall|j: int| i < j < s.len() ==> s[j] != c
}

pub open spec fn after_last(s: Seq<char>, c: char) -> Seq<char> {
    if exists|i: int| is_last_char(s, c, i) {
        s.skip((choose|i: int| is_last_char(s, c, i)) + 1)
    } else {
        s
    }
}

/// What `split(c).next()` hands back: everything before the first `c`.
pub open spec fn before_first(s: Seq<char>, c: char) -> Seq<char> {
    split(s, seq![c])[0]
}

/// Every whitespace character read as a plain space.
pub open spec fn ws_to_space(s: Seq<char>) -> Seq<char> {
    s.map_values(|c: char| if is_ws(c) { ' ' } else { c })
}

/// `str::split_whitespace`: the non-empty runs between whitespace.
pub open spec fn words(s: Seq<char>) -> Seq<Seq<char>> {
    split(ws_to_space(s), seq![' ']).filter(|w: Seq<char>| w.len() > 0)
}

// ── whitespace ──────────────────────────────────────────────────────────────

/// `char::is_whitespace`: Unicode's White_Space property.
pub open spec fn is_ws(c: char) -> bool {
    c == '\t' || c == '\n' || c == '\u{b}' || c == '\u{c}' || c == '\r' || c == ' '
        || c == '\u{85}' || c == '\u{a0}' || c == '\u{1680}' || ('\u{2000}' <= c && c
        <= '\u{200a}') || c == '\u{2028}' || c == '\u{2029}' || c == '\u{202f}' || c
        == '\u{205f}' || c == '\u{3000}'
}

pub fn char_is_ws(c: char) -> (b: bool)
    ensures
        b == is_ws(c),
{
    c == '\t' || c == '\n' || c == '\u{b}' || c == '\u{c}' || c == '\r' || c == ' ' || c
        == '\u{85}' || c == '\u{a0}' || c == '\u{1680}' || ('\u{2000}' <= c && c <= '\u{200a}')
        || c == '\u{2028}' || c == '\u{2029}' || c == '\u{202f}' || c == '\u{205f}' || c
        == '\u{3000}'
}

/// `str::trim_start`.
pub open spec fn trim_start(s: Seq<char>) -> Seq<char>
    decreases s.len(),
{
    if s.len() > 0 && is_ws(s[0]) {
        trim_start(s.drop_first())
    } else {
        s
    }
}

/// `str::trim_end`.
pub open spec fn trim_end(s: Seq<char>) -> Seq<char>
    decreases s.len(),
{
    if s.len() > 0 && is_ws(s.last()) {
        trim_end(s.drop_last())
    } else {
        s
    }
}

/// `str::trim`.
pub open spec fn trim(s: Seq<char>) -> Seq<char> {
    trim_end(trim_start(s))
}

// ── exec primitives ─────────────────────────────────────────────────────────

/// The characters of `s`, in order.
pub fn chars_of(s: &str) -> (v: Vec<char>)
    ensures
        v@ == s@,
{
    broadcast use vstd::string::group_string_axioms;

    let mut v: Vec<char> = Vec::new();
    for c in it: s.chars()
        invariant
            v@ == it.seq().take(it.index() as int),
            it.seq() == s@,
    {
        v.push(c);
    }
    v
}

/// std's `String::push`: appends one character to the end of the string,
/// which is then its old text followed by that character.
pub assume_specification[ String::push ](s: &mut String, ch: char)
    ensures
        final(s)@ == old(s)@.push(ch),
;

/// A `String` holding exactly the characters of `v`, in order.
pub fn string_of(v: &[char]) -> (s: String)
    ensures
        s@ == v@,
{
    let mut s = String::new();
    let mut i: usize = 0;
    while i < v.len()
        invariant
            i <= v@.len(),
            s@ == v@.take(i as int),
        decreases v@.len() - i,
    {
        s.push(v[i]);
        i = i + 1;
    }
    assert(v@.take(v@.len() as int) =~= v@);
    s
}

/// What a list of string slices holds.
pub open spec fn str_views(v: Seq<&str>) -> Seq<Seq<char>> {
    v.map_values(|s: &str| s@)
}

/// Owned copies of `parts`, in order.
pub fn owned(parts: &[&str]) -> (r: Vec<String>)
    ensures
        string_views(r@) == str_views(parts@),
{
    let mut r: Vec<String> = Vec::new();
    let mut k: usize = 0;
    while k < parts.len()
        invariant
            k <= parts@.len(),
            string_views(r@) == str_views(parts@).take(k as int),
        decreases parts@.len() - k,
    {
        let ghost before = string_views(r@);
        r.push(parts[k].to_owned());
        assert(string_views(r@) =~= before.push(parts@[k as int]@));
        assert(str_views(parts@).take(k + 1) =~= str_views(parts@).take(k as int).push(
            parts@[k as int]@,
        ));
        k = k + 1;
    }
    assert(str_views(parts@).take(parts@.len() as int) =~= str_views(parts@));
    r
}

/// What a list of labelled pairs holds.
pub open spec fn pair_views(v: Seq<(String, String)>) -> Seq<(Seq<char>, Seq<char>)> {
    v.map_values(|p: (String, String)| (p.0@, p.1@))
}

pub open spec fn str_pair_views(v: Seq<(&str, &str)>) -> Seq<(Seq<char>, Seq<char>)> {
    v.map_values(|p: (&str, &str)| (p.0@, p.1@))
}

/// Owned copies of `pairs`, in order.
pub fn owned_pairs(pairs: &[(&str, &str)]) -> (r: Vec<(String, String)>)
    ensures
        pair_views(r@) == str_pair_views(pairs@),
{
    let mut r: Vec<(String, String)> = Vec::new();
    let mut k: usize = 0;
    while k < pairs.len()
        invariant
            k <= pairs@.len(),
            pair_views(r@) == str_pair_views(pairs@).take(k as int),
        decreases pairs@.len() - k,
    {
        let ghost before = pair_views(r@);
        let (a, b) = pairs[k];
        r.push((a.to_owned(), b.to_owned()));
        assert(pair_views(r@) =~= before.push((pairs@[k as int].0@, pairs@[k as int].1@)));
        assert(str_pair_views(pairs@).take(k + 1) =~= str_pair_views(pairs@).take(k as int).push(
            (pairs@[k as int].0@, pairs@[k as int].1@),
        ));
        k = k + 1;
    }
    assert(str_pair_views(pairs@).take(pairs@.len() as int) =~= str_pair_views(pairs@));
    r
}

/// `str::strip_prefix` on characters.
pub fn strip_prefix_in(s: &[char], p: &[char]) -> (r: Option<Vec<char>>)
    ensures
        match r {
            Some(v) => strip_prefix(s@, p@) == Some(v@),
            None => strip_prefix(s@, p@) is None,
        },
{
    if starts_with_in(s, p) {
        let v = slice_vec(s, p.len(), s.len());
        assert(v@ =~= s@.skip(p@.len() as int));
        Some(v)
    } else {
        None
    }
}

/// `s` right-aligned in a column `w` wide: spaces before it up to `w`
/// characters, none when it is already that long.
pub open spec fn pad_left(s: Seq<char>, w: nat) -> Seq<char> {
    if s.len() < w {
        spaces((w - s.len()) as nat) + s
    } else {
        s
    }
}

/// At most `max` characters of `s`: when it is longer, the first `max - 1`
/// and an ellipsis.
pub open spec fn truncated(s: Seq<char>, max: nat) -> Seq<char> {
    if s.len() <= max {
        s
    } else {
        s.take(if max > 0 {
            max - 1
        } else {
            0
        }) + seq!['…']
    }
}

pub fn truncate(s: &str, max: usize) -> (r: String)
    ensures
        r@ == truncated(s@, max as nat),
{
    let cs = chars_of(s);
    if cs.len() <= max {
        return string_of(&cs);
    }
    let keep = if max > 0 {
        max - 1
    } else {
        0
    };
    let kept = slice_vec(&cs, 0, keep);
    let dots = ['…'];
    assert(dots@ =~= seq!['…']);
    assert(kept@ =~= cs@.take(keep as int));
    string_of(&concat(&kept, &dots))
}

/// A copy of `s[from..to]`.
pub fn slice_vec(s: &[char], from: usize, to: usize) -> (v: Vec<char>)
    requires
        from <= to <= s@.len(),
    ensures
        v@ == s@.subrange(from as int, to as int),
{
    vstd::slice::slice_to_vec(vstd::slice::slice_subrange(s, from, to))
}

/// Whether `p` occurs in `s` at `i`.
pub fn match_at(s: &[char], p: &[char], i: usize) -> (b: bool)
    ensures
        b == matches_at(s@, p@, i as int),
{
    let n = s.len();
    if i > n || p.len() > n - i {
        return false;
    }
    let mut k: usize = 0;
    while k < p.len()
        invariant
            n == s@.len(),
            i + p@.len() <= s@.len(),
            k <= p@.len(),
            forall|j: int| 0 <= j < k ==> s@[i + j] == p@[j],
        decreases p@.len() - k,
    {
        if s[i + k] != p[k] {
            assert(s@.subrange(i as int, i + p@.len())[k as int] != p@[k as int]);
            return false;
        }
        k = k + 1;
    }
    assert(s@.subrange(i as int, i + p@.len()) =~= p@);
    true
}

/// Where `p` first occurs in `s` at or after `from`.
pub fn find_from(s: &[char], p: &[char], from: usize) -> (r: Option<usize>)
    requires
        from <= s@.len(),
    ensures
        match r {
            Some(i) => from <= i && is_first_match(s@.skip(from as int), p@, i - from),
            None => forall|j: int| !matches_at(s@.skip(from as int), p@, j),
        },
{
    let ghost t = s@.skip(from as int);
    if p.len() > s.len() - from {
        assert forall|j: int| !matches_at(t, p@, j) by {}
        return None;
    }
    let last = s.len() - p.len();
    let mut i = from;
    loop
        invariant
            from <= i <= last,
            last + p@.len() == s@.len(),
            t == s@.skip(from as int),
            forall|j: int| 0 <= j < i - from ==> !matches_at(t, p@, j),
        decreases last - i,
    {
        let m = match_at(s, p, i);
        assert(t.subrange(i - from, i - from + p@.len()) =~= s@.subrange(
            i as int,
            i + p@.len(),
        ));
        if m {
            return Some(i);
        }
        if i == last {
            assert forall|j: int| !matches_at(t, p@, j) by {
                if 0 <= j && j + p@.len() <= t.len() {
                    assert(j <= i - from);
                }
            }
            return None;
        }
        i = i + 1;
    }
}

/// `str::find`.
pub fn find_in(s: &[char], p: &[char]) -> (r: Option<usize>)
    ensures
        r matches Some(i) ==> find(s@, p@) == Some(i as int),
        r is None ==> find(s@, p@) is None && !contains(s@, p@),
{
    let r = find_from(s, p, 0);
    assert(s@.skip(0) =~= s@);
    proof {
        match r {
            Some(i) => lemma_find_is(s@, p@, i as int),
            None => lemma_find_none(s@, p@),
        }
    }
    r
}

/// `str::contains`.
pub fn contains_in(s: &[char], p: &[char]) -> (b: bool)
    ensures
        b == contains(s@, p@),
{
    match find_in(s, p) {
        Some(i) => {
            proof {
                lemma_find_some_back(s@, p@);
            }
            true
        },
        None => false,
    }
}

proof fn lemma_find_some_back(s: Seq<char>, p: Seq<char>)
    requires
        find(s, p) is Some,
    ensures
        contains(s, p),
{
    let i = choose|i: int| is_first_match(s, p, i);
    assert(matches_at(s, p, i));
}

/// `str::starts_with`.
pub fn starts_with_in(s: &[char], p: &[char]) -> (b: bool)
    ensures
        b == starts_with(s@, p@),
{
    let b = match_at(s, p, 0);
    proof {
        if p@.len() <= s@.len() {
            assert(s@.subrange(0, p@.len() as int) =~= s@.take(p@.len() as int));
        }
    }
    b
}

/// `str::ends_with`.
pub fn ends_with_in(s: &[char], p: &[char]) -> (b: bool)
    ensures
        b == ends_with(s@, p@),
{
    if p.len() > s.len() {
        return false;
    }
    let b = match_at(s, p, s.len() - p.len());
    assert(s@.subrange(s@.len() - p@.len(), s@.len() as int) =~= s@.skip(
        s@.len() - p@.len(),
    ));
    b
}

/// `str::split` with a non-empty pattern.
pub fn split_in(s: &[char], p: &[char]) -> (v: Vec<Vec<char>>)
    requires
        p@.len() > 0,
    ensures
        seqs(v@) == split(s@, p@),
{
    let mut out: Vec<Vec<char>> = Vec::new();
    let mut start: usize = 0;
    assert(s@.skip(0) =~= s@);
    assert(seqs(out@) =~= Seq::<Seq<char>>::empty());
    loop
        invariant
            start <= s@.len(),
            p@.len() > 0,
            seqs(out@) + split(s@.skip(start as int), p@) == split(s@, p@),
        decreases s@.len() - start,
    {
        let ghost t = s@.skip(start as int);
        match find_from(s, p, start) {
            Some(i) => {
                let piece = slice_vec(s, start, i);
                proof {
                    lemma_find_is(t, p@, i - start);
                    assert(t.take(i - start) =~= s@.subrange(start as int, i as int));
                    assert(t.skip(i - start + p@.len()) =~= s@.skip(i + p@.len()));
                    assert(split(t, p@) == seq![t.take(i - start)] + split(
                        t.skip(i - start + p@.len()),
                        p@,
                    ));
                }
                let ghost before = seqs(out@);
                assert(i + p@.len() <= s@.len());
                let n = s.len();
                assert(i + p@.len() <= n);
                out.push(piece);
                assert(seqs(out@) =~= before.push(s@.subrange(start as int, i as int)));
                assert(seqs(out@) + split(s@.skip(i + p@.len()), p@) =~= before + split(
                    t,
                    p@,
                ));
                start = i + p.len();
            },
            None => {
                let piece = slice_vec(s, start, s.len());
                proof {
                    lemma_find_none(t, p@);
                    assert(t =~= s@.subrange(start as int, s@.len() as int));
                }
                let ghost before = seqs(out@);
                out.push(piece);
                assert(seqs(out@) =~= before + split(t, p@));
                return out;
            },
        }
    }
}

/// `str::split_once`.
pub fn split_once_in(s: &[char], p: &[char]) -> (r: Option<(Vec<char>, Vec<char>)>)
    ensures
        match r {
            Some((a, b)) => split_once(s@, p@) == Some((a@, b@)),
            None => split_once(s@, p@) is None,
        },
{
    match find_in(s, p) {
        Some(i) => {
            let a = slice_vec(s, 0, i);
            proof {
                lemma_find_props(s@, p@);
            }
            assert(i + p@.len() <= s@.len());
            let n = s.len();
            assert(i + p@.len() <= n);
            let b = slice_vec(s, i + p.len(), s.len());
            assert(a@ =~= s@.take(i as int));
            assert(b@ =~= s@.skip(i + p@.len()));
            Some((a, b))
        },
        None => None,
    }
}

/// `str::lines`.
pub fn lines_in(s: &[char]) -> (v: Vec<Vec<char>>)
    ensures
        seqs(v@) == lines(s@),
{
    if s.len() == 0 {
        return Vec::new();
    }
    let nl = ['\n'];
    assert(nl@ =~= seq!['\n']);
    let parts = split_in(s, &nl);
    let ghost ps = seqs(parts@);
    proof {
        lemma_split_nonempty(s@, seq!['\n']);
    }
    let n = parts.len();
    let mut out: Vec<Vec<char>> = Vec::new();
    let mut k: usize = 0;
    assert(ps.take(0).map_values(|l: Seq<char>| strip_cr(l)) =~= seqs(out@));
    while k + 1 < n
        invariant
            n == parts@.len(),
            n >= 1,
            ps == seqs(parts@),
            k + 1 <= n,
            seqs(out@) =~= ps.take(k as int).map_values(|l: Seq<char>| strip_cr(l)),
        decreases n - k,
    {
        let l = &parts[k];
        let stripped = if l.len() > 0 && l[l.len() - 1] == '\r' {
            slice_vec(l, 0, l.len() - 1)
        } else {
            slice_vec(l, 0, l.len())
        };
        assert(ps[k as int] == parts@[k as int]@);
        assert(stripped@ =~= strip_cr(ps[k as int]));
        let ghost before = seqs(out@);
        out.push(stripped);
        assert(seqs(out@) =~= before.push(stripped@));
        assert(ps.take(k + 1) =~= ps.take(k as int).push(ps[k as int]));
        assert(ps.take(k + 1).map_values(|l: Seq<char>| strip_cr(l)) =~= ps.take(
            k as int,
        ).map_values(|l: Seq<char>| strip_cr(l)).push(strip_cr(ps[k as int])));
        k = k + 1;
    }
    assert(ps.drop_last() =~= ps.take(k as int));
    if s[s.len() - 1] != '\n' {
        let l = &parts[n - 1];
        let last = slice_vec(l, 0, l.len());
        assert(last@ =~= ps.last());
        out.push(last);
    }
    out
}

pub proof fn lemma_split_nonempty(s: Seq<char>, p: Seq<char>)
    ensures
        split(s, p).len() >= 1,
    decreases s.len(),
{
    if p.len() > 0 {
        match find(s, p) {
            Some(i) => if 0 <= i && i + p.len() <= s.len() {
                lemma_split_nonempty(s.skip(i + p.len()), p);
            },
            None => {},
        }
    }
}

/// `str::trim`.
pub fn trim_in(s: &[char]) -> (v: Vec<char>)
    ensures
        v@ == trim(s@),
{
    let mut a: usize = 0;
    assert(s@.skip(0) =~= s@);
    while a < s.len() && char_is_ws(s[a])
        invariant
            a <= s@.len(),
            trim_start(s@) == trim_start(s@.skip(a as int)),
        decreases s@.len() - a,
    {
        assert(s@.skip(a as int).drop_first() =~= s@.skip(a + 1));
        a = a + 1;
    }
    assert(trim_start(s@) == s@.skip(a as int));
    let mut b: usize = s.len();
    while b > a && char_is_ws(s[b - 1])
        invariant
            a <= b <= s@.len(),
            trim_end(s@.skip(a as int)) == trim_end(s@.subrange(a as int, b as int)),
        decreases b,
    {
        assert(s@.subrange(a as int, b as int).drop_last() =~= s@.subrange(a as int, b - 1));
        b = b - 1;
    }
    assert(s@.skip(a as int) =~= s@.subrange(a as int, s@.len() as int));
    slice_vec(s, a, b)
}

/// `rsplit(c).next()`: everything after the last `c`, or all of `s`.
pub fn after_last_in(s: &[char], c: char) -> (v: Vec<char>)
    ensures
        v@ == after_last(s@, c),
{
    let mut i = s.len();
    while i > 0
        invariant
            i <= s@.len(),
            forall|j: int| i <= j < s@.len() ==> s@[j] != c,
        decreases i,
    {
        if s[i - 1] == c {
            assert(is_last_char(s@, c, i - 1));
            let ghost k = choose|k: int| is_last_char(s@, c, k);
            assert(k == i - 1) by {
                if k < i - 1 {
                    assert(s@[i - 1] != c);
                }
                if k > i - 1 {
                    assert(s@[k] != c);
                }
            }
            let v = slice_vec(s, i, s.len());
            assert(v@ =~= s@.skip(i as int));
            return v;
        }
        i = i - 1;
    }
    assert(!exists|k: int| is_last_char(s@, c, k));
    slice_vec(s, 0, s.len())
}

/// `split(c).next()`: everything before the first `c`.
pub fn before_first_in(s: &[char], c: char) -> (v: Vec<char>)
    ensures
        v@ == before_first(s@, c),
{
    let p = [c];
    assert(p@ =~= seq![c]);
    let parts = split_in(s, &p);
    proof {
        lemma_split_nonempty(s@, seq![c]);
    }
    assert(seqs(parts@)[0] == parts@[0]@);
    slice_vec(&parts[0], 0, parts[0].len())
}

/// Keep the non-empty pieces, in order.
pub fn non_empty(v: Vec<Vec<char>>) -> (r: Vec<Vec<char>>)
    ensures
        seqs(r@) == seqs(v@).filter(|w: Seq<char>| w.len() > 0),
{
    let mut r: Vec<Vec<char>> = Vec::new();
    let mut k: usize = 0;
    let ghost pred = |w: Seq<char>| w.len() > 0;
    assert(seqs(v@).take(0).filter(pred) =~= seqs(r@));
    while k < v.len()
        invariant
            k <= v@.len(),
            seqs(r@) == seqs(v@).take(k as int).filter(pred),
            pred == (|w: Seq<char>| w.len() > 0),
        decreases v@.len() - k,
    {
        reveal_with_fuel(Seq::<_>::filter, 1);
        let ghost before = seqs(r@);
        assert(seqs(v@).take(k + 1).drop_last() =~= seqs(v@).take(k as int));
        if v[k].len() > 0 {
            let w = slice_vec(&v[k], 0, v[k].len());
            assert(w@ =~= v@[k as int]@);
            r.push(w);
            assert(seqs(r@) =~= before.push(seqs(v@)[k as int]));
        } else {
            assert(seqs(r@) =~= before);
        }
        k = k + 1;
    }
    assert(seqs(v@).take(v@.len() as int) =~= seqs(v@));
    r
}

/// `str::split_whitespace`.
pub fn words_in(s: &[char]) -> (r: Vec<Vec<char>>)
    ensures
        seqs(r@) == words(s@),
{
    let mut m: Vec<char> = Vec::new();
    let mut k: usize = 0;
    while k < s.len()
        invariant
            k <= s@.len(),
            m@ =~= ws_to_space(s@.take(k as int)),
        decreases s@.len() - k,
    {
        let c = if char_is_ws(s[k]) {
            ' '
        } else {
            s[k]
        };
        m.push(c);
        assert(s@.take(k + 1) =~= s@.take(k as int).push(s@[k as int]));
        k = k + 1;
    }
    assert(s@.take(s@.len() as int) =~= s@);
    let sp = [' '];
    assert(sp@ =~= seq![' ']);
    let parts = split_in(&m, &sp);
    non_empty(parts)
}

/// Whether two character sequences are the same text.
pub fn same(a: &[char], b: &[char]) -> (r: bool)
    ensures
        r == (a@ == b@),
{
    if a.len() != b.len() {
        return false;
    }
    let mut i: usize = 0;
    while i < a.len()
        invariant
            a@.len() == b@.len(),
            i <= a@.len(),
            forall|j: int| 0 <= j < i ==> a@[j] == b@[j],
        decreases a@.len() - i,
    {
        if a[i] != b[i] {
            return false;
        }
        i = i + 1;
    }
    assert(a@ =~= b@);
    true
}


/// Two texts back to back.
pub fn concat(a: &[char], b: &[char]) -> (v: Vec<char>)
    ensures
        v@ == a@ + b@,
{
    let mut v = slice_vec(a, 0, a.len());
    let mut w = slice_vec(b, 0, b.len());
    assert(v@ =~= a@);
    assert(w@ =~= b@);
    v.append(&mut w);
    v
}

/// `[T]::join`: the parts with `sep` between each two.
pub open spec fn join(parts: Seq<Seq<char>>, sep: Seq<char>) -> Seq<char>
    decreases parts.len(),
{
    if parts.len() == 0 {
        seq![]
    } else if parts.len() == 1 {
        parts[0]
    } else {
        join(parts.drop_last(), sep) + sep + parts.last()
    }
}

pub fn join_in(parts: &Vec<Vec<char>>, sep: &[char]) -> (v: Vec<char>)
    ensures
        v@ == join(seqs(parts@), sep@),
{
    let ghost ps = seqs(parts@);
    let mut v: Vec<char> = Vec::new();
    let mut k: usize = 0;
    while k < parts.len()
        invariant
            k <= parts@.len(),
            ps == seqs(parts@),
            v@ == join(ps.take(k as int), sep@),
        decreases parts@.len() - k,
    {
        assert(ps.take(k + 1).drop_last() =~= ps.take(k as int));
        assert(ps.take(k + 1).last() == parts@[k as int]@);
        if k == 0 {
            v = slice_vec(&parts[0], 0, parts[0].len());
            assert(v@ =~= ps.take(1)[0]);
        } else {
            let w = concat(&v, sep);
            v = concat(&w, &parts[k]);
        }
        k = k + 1;
    }
    assert(ps.take(parts@.len() as int) =~= ps);
    v
}

/// `n` spaces.
pub open spec fn spaces(n: nat) -> Seq<char> {
    Seq::new(n, |i: int| ' ')
}

/// `format!("{s:<w$}")`: `s`, padded with spaces on the right to `w` columns.
pub open spec fn pad_right(s: Seq<char>, w: nat) -> Seq<char> {
    if s.len() < w {
        s + spaces((w - s.len()) as nat)
    } else {
        s
    }
}

pub fn pad_right_in(s: &[char], w: usize) -> (v: Vec<char>)
    ensures
        v@ == pad_right(s@, w as nat),
{
    let mut v = slice_vec(s, 0, s.len());
    assert(v@ =~= s@);
    while v.len() < w
        invariant
            s@.len() <= w ==> v@ == s@ + spaces((v@.len() - s@.len()) as nat),
            s@.len() > w ==> v@ == s@,
            s@.len() <= v@.len(),
            v@.len() <= w || v@ == s@,
        decreases w - v@.len(),
    {
        let ghost before = v@;
        v.push(' ');
        assert(spaces((v@.len() - s@.len()) as nat) =~= spaces((before.len() - s@.len()) as nat).push(' '));
    }
    assert(s@.len() < w ==> v@.len() == w);
    if s.len() >= w {
        assert(v@ == s@);
    }
    v
}

pub fn pad_left_in(s: &[char], w: usize) -> (v: Vec<char>)
    ensures
        v@ == pad_left(s@, w as nat),
{
    if s.len() >= w {
        return slice_vec(s, 0, s.len());
    }
    let n = w - s.len();
    let mut v: Vec<char> = Vec::new();
    while v.len() < n
        invariant
            v@ == spaces(v@.len()),
            v@.len() <= n,
        decreases n - v@.len(),
    {
        let ghost before = v@;
        v.push(' ');
        assert(v@ =~= spaces(v@.len()));
    }
    concat(&v, s)
}

/// `a` sorts before `b` the way `String`'s `Ord` sorts them: character by
/// character, a prefix first. UTF-8 keeps the order of the characters it
/// encodes, so this is the byte order `Ord` compares in.
pub open spec fn name_lt(a: Seq<char>, b: Seq<char>) -> bool
    decreases a.len(),
{
    if b.len() == 0 {
        false
    } else if a.len() == 0 {
        true
    } else if a[0] != b[0] {
        a[0] < b[0]
    } else {
        name_lt(a.drop_first(), b.drop_first())
    }
}

pub proof fn lemma_name_lt_irreflexive(a: Seq<char>)
    ensures
        !name_lt(a, a),
    decreases a.len(),
{
    if a.len() > 0 {
        lemma_name_lt_irreflexive(a.drop_first());
    }
}

pub proof fn lemma_name_lt_transitive(a: Seq<char>, b: Seq<char>, c: Seq<char>)
    requires
        name_lt(a, b),
        name_lt(b, c),
    ensures
        name_lt(a, c),
    decreases a.len(),
{
    if a.len() > 0 && b.len() > 0 && c.len() > 0 && a[0] == b[0] && b[0] == c[0] {
        lemma_name_lt_transitive(a.drop_first(), b.drop_first(), c.drop_first());
    }
}

pub proof fn lemma_name_lt_total(a: Seq<char>, b: Seq<char>)
    requires
        a != b,
    ensures
        name_lt(a, b) || name_lt(b, a),
    decreases a.len(),
{
    if a.len() > 0 && b.len() > 0 && a[0] == b[0] {
        if a.drop_first() == b.drop_first() {
            assert(a =~= seq![a[0]] + a.drop_first());
            assert(b =~= seq![b[0]] + b.drop_first());
        }
        lemma_name_lt_total(a.drop_first(), b.drop_first());
    } else if a.len() == 0 && b.len() == 0 {
        assert(a =~= b);
    }
}

pub proof fn lemma_name_lt_skip(a: Seq<char>, b: Seq<char>, i: int)
    requires
        0 <= i <= a.len(),
        i <= b.len(),
        a.take(i) == b.take(i),
    ensures
        name_lt(a, b) == name_lt(a.skip(i), b.skip(i)),
    decreases i,
{
    if i > 0 {
        assert(a[0] == a.take(i)[0]);
        assert(b[0] == b.take(i)[0]);
        assert(a.drop_first().take(i - 1) =~= a.take(i).drop_first());
        assert(b.drop_first().take(i - 1) =~= b.take(i).drop_first());
        lemma_name_lt_skip(a.drop_first(), b.drop_first(), i - 1);
        assert(a.drop_first().skip(i - 1) =~= a.skip(i));
        assert(b.drop_first().skip(i - 1) =~= b.skip(i));
    } else {
        assert(a.skip(0) =~= a);
        assert(b.skip(0) =~= b);
    }
}

/// Whether `a` sorts before `b`.
pub fn name_lt_in(a: &[char], b: &[char]) -> (r: bool)
    ensures
        r == name_lt(a@, b@),
{
    let mut i: usize = 0;
    while i < a.len() && i < b.len() && a[i] == b[i]
        invariant
            i <= a@.len(),
            i <= b@.len(),
            a@.take(i as int) == b@.take(i as int),
        decreases a@.len() - i,
    {
        assert(a@.take(i + 1) =~= a@.take(i as int).push(a@[i as int]));
        assert(b@.take(i + 1) =~= b@.take(i as int).push(b@[i as int]));
        i = i + 1;
    }
    proof {
        lemma_name_lt_skip(a@, b@, i as int);
    }
    if i == b.len() {
        false
    } else if i == a.len() {
        true
    } else {
        assert(a@.skip(i as int)[0] == a@[i as int]);
        assert(b@.skip(i as int)[0] == b@[i as int]);
        a[i] < b[i]
    }
}

/// A value listed by name.
pub trait Named {
    spec fn name_of(&self) -> Seq<char>;

    fn name(&self) -> (s: &str)
        ensures
            s@ == self.name_of(),
    ;
}

/// No name sorts before the one ahead of it.
pub open spec fn by_name<T: Named>(v: Seq<T>) -> bool {
    forall|i: int, j: int| 0 <= i < j < v.len() ==> !name_lt(v[j].name_of(), v[i].name_of())
}

/// The same values in name order, as `sort_by` on the name gives them.
pub fn sort_by_name<T: Named>(v: Vec<T>) -> (r: Vec<T>)
    ensures
        by_name(r@),
        r@.to_multiset() == v@.to_multiset(),
{
    let ghost src = v@;
    let mut out: Vec<T> = Vec::new();
    let mut rest = v;
    let ghost taken: Seq<T> = seq![];
    broadcast use vstd::seq_lib::group_to_multiset_ensures;

    while rest.len() > 0
        invariant
            by_name(out@),
            taken + rest@ == src,
            out@.to_multiset() == taken.to_multiset(),
        decreases rest@.len(),
    {
        let ghost before_rest = rest@;
        let x = rest.remove(0);
        assert(before_rest =~= seq![x] + rest@);
        let xn = chars_of(x.name());
        let ghost ov = out@;
        let mut p: usize = 0;
        while p < out.len() && !name_lt_in(&xn, &chars_of(out[p].name()))
            invariant
                p <= out@.len(),
                ov == out@,
                xn@ == x.name_of(),
                forall|i: int| 0 <= i < p ==> !name_lt(x.name_of(), ov[i].name_of()),
            decreases out@.len() - p,
        {
            p = p + 1;
        }
        proof {
            assert forall|q: int| p <= q < ov.len() implies !name_lt(
                ov[q].name_of(),
                x.name_of(),
            ) by {
                if name_lt(ov[q].name_of(), x.name_of()) {
                    lemma_name_lt_transitive(ov[q].name_of(), x.name_of(), ov[p as int].name_of());
                    if q == p {
                        lemma_name_lt_irreflexive(ov[q].name_of());
                    }
                }
            }
        }
        out.insert(p, x);
        proof {
            vstd::seq_lib::to_multiset_insert(ov, p as int, x);
            vstd::seq_lib::to_multiset_build(taken, x);
            taken = taken.push(x);
        }
    }
    assert(rest@ =~= Seq::<T>::empty());
    assert(taken =~= src);
    out
}

/// Splitting on a character that does not occur leaves the text whole.
pub proof fn lemma_split_char_none(s: Seq<char>, c: char)
    requires
        !s.contains(c),
    ensures
        split(s, seq![c]) == seq![s],
{
    assert forall|j: int| !matches_at(s, seq![c], j) by {
        if matches_at(s, seq![c], j) {
            assert(s.subrange(j, j + 1)[0] == s[j]);
            assert(s.contains(c));
        }
    }
    lemma_find_none(s, seq![c]);
}

/// Splitting `a`, the separator, then `b`, where `a` holds no separator, gives
/// `a` and then the pieces of `b`.
pub proof fn lemma_split_char_step(a: Seq<char>, b: Seq<char>, c: char)
    requires
        !a.contains(c),
    ensures
        split(a + seq![c] + b, seq![c]) == seq![a] + split(b, seq![c]),
{
    let s = a + seq![c] + b;
    let p = seq![c];
    assert(s.subrange(a.len() as int, a.len() + 1int) =~= p);
    assert forall|j: int| 0 <= j < a.len() implies !matches_at(s, p, j) by {
        if matches_at(s, p, j) {
            assert(s.subrange(j, j + 1)[0] == s[j]);
            assert(s[j] == a[j]);
            assert(a.contains(c));
        }
    }
    assert(is_first_match(s, p, a.len() as int));
    lemma_find_is(s, p, a.len() as int);
    assert(s.take(a.len() as int) =~= a);
    assert(s.skip(a.len() + 1int) =~= b);
}

/// No piece of a split on a character holds that character.
pub proof fn lemma_split_char_pieces(s: Seq<char>, c: char)
    ensures
        forall|k: int| 0 <= k < split(s, seq![c]).len() ==> !(#[trigger] split(s, seq![c])[k]).contains(c),
    decreases s.len(),
{
    let p = seq![c];
    match find(s, p) {
        Some(i) => {
            lemma_find_some(s, p, i);
            if 0 <= i && i + 1 <= s.len() {
                let a = s.take(i);
                assert forall|m: int| 0 <= m < a.len() implies a[m] != c by {
                    if a[m] == c {
                        assert(s.subrange(m, m + 1) =~= p);
                        assert(matches_at(s, p, m));
                    }
                }
                lemma_split_char_pieces(s.skip(i + 1), c);
                let rest = split(s.skip(i + 1), p);
                assert(split(s, p) == seq![a] + rest);
                assert forall|k: int| 0 <= k < split(s, p).len() implies !(#[trigger] split(s, p)[k]).contains(c) by {
                    if k > 0 {
                        assert(split(s, p)[k] == rest[k - 1]);
                    }
                }
            }
        },
        None => {
            assert forall|m: int| 0 <= m < s.len() implies s[m] != c by {
                if s[m] == c {
                    assert(s.subrange(m, m + 1) =~= p);
                    lemma_find_some(s, p, m);
                }
            }
        },
    }
}

/// `join` taken apart from the front: the first part, the separator, then the
/// rest joined.
pub proof fn lemma_join_front(parts: Seq<Seq<char>>, sep: Seq<char>)
    requires
        parts.len() >= 2,
    ensures
        join(parts, sep) == parts[0] + sep + join(parts.skip(1), sep),
    decreases parts.len(),
{
    if parts.len() == 2 {
        assert(parts.drop_last() =~= seq![parts[0]]);
        assert(join(seq![parts[0]], sep) == parts[0]);
        assert(parts.skip(1) =~= seq![parts[1]]);
        assert(join(seq![parts[1]], sep) == parts[1]);
        assert(join(parts, sep) =~= parts[0] + sep + join(parts.skip(1), sep));
    } else {
        lemma_join_front(parts.drop_last(), sep);
        assert(parts.drop_last().skip(1) =~= parts.skip(1).drop_last());
        assert(parts.drop_last()[0] == parts[0]);
        assert(parts.skip(1).last() == parts.last());
        assert(join(parts.skip(1), sep) == join(parts.skip(1).drop_last(), sep) + sep + parts.skip(1).last());
        assert(join(parts, sep) == join(parts.drop_last(), sep) + sep + parts.last());
        assert(join(parts, sep) =~= parts[0] + sep + join(parts.skip(1), sep));
    }
}

/// Joining pieces that hold no separator character, then splitting on it,
/// gives the pieces back.
pub proof fn lemma_split_join_char(parts: Seq<Seq<char>>, c: char)
    requires
        parts.len() >= 1,
        forall|k: int| 0 <= k < parts.len() ==> !(#[trigger] parts[k]).contains(c),
    ensures
        split(join(parts, seq![c]), seq![c]) == parts,
    decreases parts.len(),
{
    if parts.len() == 1 {
        assert(!parts[0].contains(c));
        lemma_split_char_none(parts[0], c);
        assert(seq![parts[0]] =~= parts);
    } else {
        lemma_join_front(parts, seq![c]);
        assert(!parts[0].contains(c));
        lemma_split_char_step(parts[0], join(parts.skip(1), seq![c]), c);
        assert forall|k: int| 0 <= k < parts.skip(1).len() implies !(#[trigger] parts.skip(1)[k]).contains(c) by {
            assert(parts.skip(1)[k] == parts[k + 1]);
        }
        lemma_split_join_char(parts.skip(1), c);
        assert(seq![parts[0]] + parts.skip(1) =~= parts);
    }
}

} // verus!
