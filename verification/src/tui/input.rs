//! Key predicates and the hint labels that describe them.
//!
//! Every view reads its keys through these, so `j`/`↓` mean the same thing
//! everywhere and a pane title never hand-writes a key name.

use vstd::prelude::*;

verus! {

/// Key-hint labels shown in pane titles, defined once so every pane reads the
/// same. `Y_MOVE`/`X_MOVE` are plain vertical/horizontal navigation (arrows and
/// hjkl both work everywhere); the `CTRL_` variants are the modifier forms used
/// for the bottom pane - Ctrl-arrows are the terminal-safe way to send them,
/// since some terminals can't send a distinct Ctrl-letter.
pub const Y_MOVE: &'static str = "↑↓/jk";

pub const CTRL_Y_MOVE: &'static str = "ctrl-↑↓/jk";

pub const X_MOVE: &'static str = "←→/hl";

pub const CTRL_X_MOVE: &'static str = "ctrl-←→/hl";

/// A key as the views tell keys apart; the terminal's own codes are mapped to
/// these where they are read, and every code no view answers to is `Other`.
#[derive(Clone, Copy, PartialEq, Eq, Debug, Structural)]
pub enum Key {
    Char(char),
    Up,
    Down,
    Left,
    Right,
    Enter,
    Esc,
    Backspace,
    Delete,
    Home,
    End,
    Other,
}

// ── shared key predicates (arrow keys mirror j/k everywhere) ────────────────

/// Down = j or ↓.
pub fn is_down(c: Key) -> (b: bool)
    ensures
        b == (c == Key::Char('j') || c == Key::Down),
{
    match c {
        Key::Char('j') | Key::Down => true,
        _ => false,
    }
}

/// Up = k or ↑.
pub fn is_up(c: Key) -> (b: bool)
    ensures
        b == (c == Key::Char('k') || c == Key::Up),
{
    match c {
        Key::Char('k') | Key::Up => true,
        _ => false,
    }
}

/// Open/drill-in = Enter only (so l/→ are free for horizontal diff scroll).
pub fn is_open(c: Key) -> (b: bool)
    ensures
        b == (c == Key::Enter),
{
    match c {
        Key::Enter => true,
        _ => false,
    }
}

/// Back/step-out = Esc (Ctrl-[ sends Esc too), so h/← are free to scroll.
pub fn is_back(c: Key) -> (b: bool)
    ensures
        b == (c == Key::Esc),
{
    match c {
        Key::Esc => true,
        _ => false,
    }
}

/// Pan left = h or ←.
pub fn is_left(c: Key) -> (b: bool)
    ensures
        b == (c == Key::Char('h') || c == Key::Left),
{
    match c {
        Key::Char('h') | Key::Left => true,
        _ => false,
    }
}

/// Pan right = l or →.
pub fn is_right(c: Key) -> (b: bool)
    ensures
        b == (c == Key::Char('l') || c == Key::Right),
{
    match c {
        Key::Char('l') | Key::Right => true,
        _ => false,
    }
}

/// A gap shorter than this many milliseconds between two presses of one key is
/// the terminal's own key repeat, not a person tapping: repeats arrive 25-40
/// times a second, and nobody taps faster than about eight.
pub const REPEAT_MS: u64 = 100;

/// How many milliseconds a key has to be held for each doubling of the step.
pub const RAMP_MS: u64 = 500;

/// The most a single repeat may be doubled, so a held key still lands near
/// where it was let go.
pub const MAX_DOUBLINGS: u64 = 3;

/// How far one press of a movement key goes. A tap is one step, so reading a
/// list or a diff line by line is unchanged; a held key doubles its step for
/// every `RAMP_MS` it has been held, up to eight, and letting go starts over.
/// That is what stands in for paging keys, which many keyboards do not have.
///
/// Times are readings of one monotonic clock, in milliseconds.
pub struct Accel {
    /// The key, and whether Ctrl was down, of the last press.
    pub key: Option<(Key, bool)>,
    /// When the last press came.
    pub last: Option<u64>,
    /// When the terminal started repeating the key, None until it has.
    pub held_since: Option<u64>,
}

impl Default for Accel {
    fn default() -> (a: Accel)
        ensures
            a.key is None,
            a.last is None,
            a.held_since is None,
    {
        Accel { key: None, last: None, held_since: None }
    }
}

/// `2` to the power `n`, for `n` of at most `MAX_DOUBLINGS`.
pub open spec fn doubled(n: int) -> int {
    if n <= 0 {
        1
    } else if n == 1 {
        2
    } else if n == 2 {
        4
    } else {
        8
    }
}

/// Whether a press at `now` of `code` repeats the press before it.
pub open spec fn is_repeat(a: Accel, code: Key, ctrl: bool, now: u64) -> bool {
    a.key == Some((code, ctrl)) && match a.last {
        Some(t) => crate::tui::sat_sub(now as int, t as int) < REPEAT_MS,
        None => false,
    }
}

impl Accel {
    /// Steps to move for a press of `code` at `now`. Every key event goes
    /// through here, so any other key in between ends the hold.
    pub fn steps(&mut self, code: Key, ctrl: bool, now: u64) -> (n: usize)
        ensures
            final(self).key == Some((code, ctrl)),
            final(self).last == Some(now),
            !is_repeat(*old(self), code, ctrl, now) ==> n == 1 && final(self).held_since is None,
            is_repeat(*old(self), code, ctrl, now) ==> {
                let since = match old(self).held_since {
                    Some(s) => s,
                    None => now,
                };
                &&& final(self).held_since == Some(since)
                &&& n == doubled(crate::tui::sat_sub(now as int, since as int) / RAMP_MS as int)
            },
    {
        let same_key = match self.key {
            Some((k, c)) => k == code && c == ctrl,
            None => false,
        };
        let recent = match self.last {
            Some(t) => now.saturating_sub(t) < REPEAT_MS,
            None => false,
        };
        let repeat = same_key && recent;
        self.key = Some((code, ctrl));
        self.last = Some(now);
        if !repeat {
            self.held_since = None;
            return 1;
        }
        let since = match self.held_since {
            Some(s) => s,
            None => now,
        };
        self.held_since = Some(since);
        let ramps = now.saturating_sub(since) / RAMP_MS;
        if ramps == 0 {
            1
        } else if ramps == 1 {
            2
        } else if ramps == 2 {
            4
        } else {
            8
        }
    }
}

/// `cur` moved `rows` towards either end of a list `len` long, stopping there.
pub fn stepped(cur: usize, len: usize, down: bool, rows: usize) -> (r: usize)
    ensures
        r == if down {
            crate::tui::min(cur + rows, crate::tui::sat_sub(len as int, 1))
        } else {
            crate::tui::sat_sub(cur as int, rows as int)
        },
        cur < len ==> r < len,
        down ==> r <= cur + rows,
        !down ==> r <= cur,
{
    if down {
        let last = len.saturating_sub(1);
        if cur < last && rows < last - cur {
            cur + rows
        } else {
            last
        }
    } else {
        cur.saturating_sub(rows)
    }
}

/// Fold Ctrl+[ back into Esc. Terminals send Ctrl+[ as the raw ESC byte, but
/// the kitty protocol the program pushes (DISAMBIGUATE_ESCAPE_CODES) turns it
/// into a distinct Ctrl+[ event - so map it back, since Ctrl+[ is Esc in vim
/// muscle memory. Call it once per key event before matching.
pub fn norm_esc(code: Key, ctrl: bool) -> (k: Key)
    ensures
        k == if ctrl && code == Key::Char('[') {
            Key::Esc
        } else {
            code
        },
{
    if ctrl && code == Key::Char('[') {
        Key::Esc
    } else {
        code
    }
}

/// How many bytes UTF-8 spends on `c`.
pub open spec fn utf8_width(c: char) -> nat {
    vstd::utf8::encode_scalar(c as u32).len()
}

proof fn lemma_encode_push(a: Seq<char>, c: char)
    ensures
        vstd::utf8::encode_utf8(a.push(c)).len() == vstd::utf8::encode_utf8(a).len()
            + utf8_width(c),
    decreases a.len(),
{
    let p = a.push(c);
    assert(p[0] == if a.len() == 0 {
        c
    } else {
        a[0]
    });
    assert(vstd::utf8::encode_utf8(p) == vstd::utf8::encode_scalar(p[0] as u32)
        + vstd::utf8::encode_utf8(p.drop_first()));
    if a.len() == 0 {
        assert(p.drop_first() =~= Seq::<char>::empty());
        assert(vstd::utf8::encode_utf8(p.drop_first()).len() == 0);
    } else {
        assert(p.drop_first() =~= a.drop_first().push(c));
        lemma_encode_push(a.drop_first(), c);
        assert(vstd::utf8::encode_utf8(a) == vstd::utf8::encode_scalar(a[0] as u32)
            + vstd::utf8::encode_utf8(a.drop_first()));
    }
}

proof fn lemma_encode_prefix(a: Seq<char>, k: int)
    requires
        0 <= k <= a.len(),
    ensures
        vstd::utf8::encode_utf8(a.take(k)).len() <= vstd::utf8::encode_utf8(a).len(),
    decreases a.len() - k,
{
    if k < a.len() {
        lemma_encode_prefix(a, k + 1);
        assert(a.take(k + 1) =~= a.take(k).push(a[k]));
        lemma_encode_push(a.take(k), a[k]);
    } else {
        assert(a.take(k) =~= a);
    }
}

fn char_width(c: char) -> (w: usize)
    ensures
        w == utf8_width(c),
        1 <= w <= 4,
{
    broadcast use vstd::utf8::char_is_scalar;

    let u = c as u32;
    if u < 0x80 {
        1
    } else if u < 0x800 {
        2
    } else if u < 0x10000 {
        3
    } else {
        4
    }
}

/// Byte offset of the `idx`-th character, for editing a query by caret
/// position rather than by byte, which a multi-byte character would land in
/// the middle of; the string's whole length when it has no such character.
pub fn char_to_byte(s: &str, idx: usize) -> (r: usize)
    ensures
        r == vstd::utf8::encode_utf8(
            s@.take(crate::tui::min(idx as int, s@.len() as int)),
        ).len(),
{
    broadcast use vstd::string::group_string_axioms;

    let whole = s.as_bytes().len();
    assert(whole == vstd::utf8::encode_utf8(s@).len());
    let ghost all = s@;
    let mut bytes: usize = 0;
    let mut k: usize = 0;
    for c in it: s.chars()
        invariant
            it.seq() == all,
            all == s@,
            vstd::utf8::encode_utf8(all).len() <= usize::MAX,
            k == it.index(),
            k <= idx,
            bytes == vstd::utf8::encode_utf8(all.take(k as int)).len(),
    {
        if k == idx {
            return bytes;
        }
        let w = char_width(c);
        proof {
            assert(all.take(k + 1) =~= all.take(k as int).push(c));
            lemma_encode_push(all.take(k as int), c);
            lemma_encode_prefix(all, k + 1);
        }
        bytes = bytes + w;
        k = k + 1;
    }
    assert(all.take(all.len() as int) =~= all);
    bytes
}

proof fn lemma_encode_concat(a: Seq<char>, b: Seq<char>)
    ensures
        vstd::utf8::encode_utf8(a + b) == vstd::utf8::encode_utf8(a) + vstd::utf8::encode_utf8(b),
    decreases a.len(),
{
    if a.len() == 0 {
        assert(a + b =~= b);
        assert(vstd::utf8::encode_utf8(a) + vstd::utf8::encode_utf8(b) =~= vstd::utf8::encode_utf8(b));
    } else {
        lemma_encode_concat(a.drop_first(), b);
        assert((a + b).drop_first() =~= a.drop_first() + b);
        assert((a + b)[0] == a[0]);
        assert(vstd::utf8::encode_utf8(a + b) == vstd::utf8::encode_scalar(a[0] as u32)
            + vstd::utf8::encode_utf8((a + b).drop_first()));
        assert(vstd::utf8::encode_utf8(a) == vstd::utf8::encode_scalar(a[0] as u32)
            + vstd::utf8::encode_utf8(a.drop_first()));
        assert(vstd::utf8::encode_utf8(a + b) =~= vstd::utf8::encode_utf8(a) + vstd::utf8::encode_utf8(b));
    }
}

proof fn lemma_encode_boundary(s: Seq<char>, k: int)
    requires
        0 <= k <= s.len(),
    ensures
        vstd::utf8::is_char_boundary(vstd::utf8::encode_utf8(s), vstd::utf8::encode_utf8(s.take(k)).len() as int),
    decreases s.len(),
{
    broadcast use vstd::utf8::encode_utf8_valid_utf8;

    let bytes = vstd::utf8::encode_utf8(s);
    if k == 0 {
        assert(s.take(0) =~= Seq::<char>::empty());
        assert(vstd::utf8::encode_utf8(s.take(0)).len() == 0);
    } else {
        let t = s.drop_first();
        lemma_encode_boundary(t, k - 1);
        vstd::utf8::encode_utf8_first_scalar(s);
        assert(vstd::utf8::pop_first_scalar(bytes) =~= vstd::utf8::encode_utf8(t));
        let w = vstd::utf8::encode_scalar(s[0] as u32).len();
        assert(s.take(k)[0] == s[0]);
        assert(s.take(k).drop_first() =~= t.take(k - 1));
        assert(vstd::utf8::encode_utf8(s.take(k)) == vstd::utf8::encode_scalar(s[0] as u32)
            + vstd::utf8::encode_utf8(t.take(k - 1)));
        lemma_encode_prefix(t, k - 1);
        assert(bytes == vstd::utf8::encode_scalar(s[0] as u32) + vstd::utf8::encode_utf8(t));
        broadcast use vstd::utf8::char_is_scalar;
        assert(w > 0);
    }
}

/// The offset `char_to_byte` gives is a character boundary of the text, no
/// further in than its end: the bytes before it are exactly its first `idx`
/// characters, and past the last character it is the text's whole length.
pub proof fn lemma_char_to_byte_boundary(s: Seq<char>, idx: int)
    requires
        idx >= 0,
    ensures
        ({
            let bytes = vstd::utf8::encode_utf8(s);
            let r = vstd::utf8::encode_utf8(s.take(crate::tui::min(idx, s.len() as int))).len() as int;
            &&& r <= bytes.len()
            &&& vstd::utf8::is_char_boundary(bytes, r)
            &&& vstd::utf8::decode_utf8(bytes.subrange(0, r)) == s.take(crate::tui::min(idx, s.len() as int))
            &&& idx >= s.len() ==> r == bytes.len()
        }),
{
    let k = crate::tui::min(idx, s.len() as int);
    lemma_encode_boundary(s, k);
    lemma_encode_concat(s.take(k), s.skip(k));
    assert(s.take(k) + s.skip(k) =~= s);
    let pre = vstd::utf8::encode_utf8(s.take(k));
    assert(vstd::utf8::encode_utf8(s).subrange(0, pre.len() as int) =~= pre);
    vstd::utf8::encode_utf8_decode_utf8(s.take(k));
    if idx >= s.len() {
        assert(s.take(k) =~= s);
    }
}

} // verus!
