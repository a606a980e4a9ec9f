//! What the row renderers, pane furniture and the modal box decide before any
//! of it is drawn: how wide and tall a box is, which keys fit in a footer,
//! what a key does to an open `:` line.

use crate::git::load::Commit;
use crate::text::{
    string_views, chars_of, concat, join, join_in, lines, lines_in, pad_right, pad_right_in, same, seqs,
    slice_vec, string_of, trim, trim_in,
};
use crate::tui::input::{is_back, is_down, is_up, Key};
use crate::tui::{clamp_scroll, max, min, sat_sub, scroll_limit};
use vstd::prelude::*;

verus! {

/// Columns a commit's subject keeps however many refs point at it.
pub const MIN_SUBJECT: usize = 20;

/// Columns a commit row spends before its refs: the push mark, the short hash
/// padded to seven, the date and `<committer>`, each with its gap.
pub open spec fn row_lead(short: Seq<char>, date: Seq<char>, committer: Seq<char>) -> int {
    2 + max(7, short.len() as int) + 1 + date.len() + 2 + committer.len() + 3
}

/// Columns left for the refs of a commit row `width` columns wide, once the
/// subject keeps `MIN_SUBJECT` of them.
pub fn ref_room(c: &Commit, width: usize) -> (r: usize)
    requires
        row_lead(c.short@, c.date@, c.committer@) + MIN_SUBJECT <= usize::MAX,
    ensures
        r == sat_sub(width as int, row_lead(c.short@, c.date@, c.committer@) + MIN_SUBJECT),
{
    let short = chars_of(c.short.as_str()).len();
    let date = chars_of(c.date.as_str()).len();
    let committer = chars_of(c.committer.as_str()).len();
    let hash_w = if short < 7 {
        7
    } else {
        short
    };
    let left = 2 + hash_w + 1 + date + 2 + committer + 3;
    width.saturating_sub(left + MIN_SUBJECT)
}

/// A colour as the views use colours: which one says what, the terminal's
/// own palette being the program's business.
#[derive(Clone, Copy, PartialEq, Eq, Debug, Structural)]
pub enum Hue {
    Green,
    Yellow,
    Red,
    Cyan,
    Gray,
    Magenta,
    /// No colour of its own, drawn dim.
    Dim,
}

/// The colour and letter a file's status is drawn with.
pub fn status_glyph(status: char) -> (r: (Hue, char))
    ensures
        r.1 == status,
        r.0 == if status == 'A' {
            Hue::Green
        } else if status == 'M' {
            Hue::Yellow
        } else if status == 'D' {
            Hue::Red
        } else if status == 'R' {
            Hue::Cyan
        } else {
            Hue::Gray
        },
{
    match status {
        'A' => (Hue::Green, 'A'),
        'M' => (Hue::Yellow, 'M'),
        'D' => (Hue::Red, 'D'),
        'R' => (Hue::Cyan, 'R'),
        c => (Hue::Gray, c),
    }
}

/// How long a note sits in a view's footer before the key hints come back, in
/// milliseconds.
pub const NOTE_MS: u64 = 3000;

// ── the `:` line ────────────────────────────────────────────────────────────

/// What a `:` line asked for.
pub enum Command {
    Help,
    Quit,
    Unknown(String),
}

/// What a key did to an open `:` line.
pub enum Typed {
    Open,
    Cancel,
    Run(Command),
}

/// The words that ask for the key help: an empty line among them, so Enter on
/// the placeholder runs it.
pub open spec fn is_help_word(t: Seq<char>) -> bool {
    t == Seq::<char>::empty() || t == "help"@ || t == "h"@ || t == "keys"@
}

pub open spec fn is_quit_word(t: Seq<char>) -> bool {
    t == "q"@ || t == "quit"@
}

/// `c` is what the (trimmed) line `t` asks for.
pub open spec fn command_is(c: Command, t: Seq<char>) -> bool {
    match c {
        Command::Help => is_help_word(t),
        Command::Quit => !is_help_word(t) && is_quit_word(t),
        Command::Unknown(s) => !is_help_word(t) && !is_quit_word(t) && s@ == t,
    }
}

/// The `:` line in a view's footer: what has been typed after the colon. It
/// opens showing `help` as a placeholder, and Enter on an empty line runs
/// exactly that, so the one command worth knowing needs nothing typed.
pub struct CommandLine {
    text: Vec<char>,
}

impl View for CommandLine {
    type V = Seq<char>;

    closed spec fn view(&self) -> Seq<char> {
        self.text@
    }
}

impl Default for CommandLine {
    fn default() -> (c: CommandLine)
        ensures
            c@ == Seq::<char>::empty(),
    {
        CommandLine { text: Vec::new() }
    }
}

impl CommandLine {
    /// What has been typed so far.
    pub fn text(&self) -> (s: String)
        ensures
            s@ == self@,
    {
        string_of(&self.text)
    }

    /// One key while the line is open.
    pub fn on_key(&mut self, code: Key) -> (r: Typed)
        ensures
            match code {
                Key::Esc => r is Cancel && final(self)@ == old(self)@,
                Key::Enter => final(self)@ == old(self)@ && match r {
                    Typed::Run(c) => command_is(c, trim(old(self)@)),
                    _ => false,
                },
                Key::Backspace => if old(self)@.len() == 0 {
                    r is Cancel && final(self)@ == old(self)@
                } else {
                    r is Open && final(self)@ == old(self)@.drop_last()
                },
                Key::Char(ch) => r is Open && final(self)@ == old(self)@.push(ch),
                _ => r is Open && final(self)@ == old(self)@,
            },
    {
        match code {
            Key::Esc => Typed::Cancel,
            Key::Enter => {
                let t = trim_in(&self.text);
                if t.len() == 0 {
                    assert(t@ =~= Seq::<char>::empty());
                }
                let cmd = if t.len() == 0 || same(&t, &chars_of("help")) || same(
                    &t,
                    &chars_of("h"),
                ) || same(&t, &chars_of("keys")) {
                    Command::Help
                } else if same(&t, &chars_of("q")) || same(&t, &chars_of("quit")) {
                    Command::Quit
                } else {
                    Command::Unknown(string_of(&t))
                };
                Typed::Run(cmd)
            },
            Key::Backspace => {
                if self.text.len() == 0 {
                    Typed::Cancel
                } else {
                    self.text.pop();
                    Typed::Open
                }
            },
            Key::Char(c) => {
                self.text.push(c);
                Typed::Open
            },
            _ => Typed::Open,
        }
    }
}

// ── the footer ──────────────────────────────────────────────────────────────

/// One more key on a footer line: a space before the first, ` · ` between.
pub open spec fn with_key(line: Seq<char>, key: Seq<char>) -> Seq<char> {
    if line.len() == 0 {
        seq![' '] + key
    } else {
        line + " · "@ + key
    }
}

/// As many whole keys as fit in `width`, in order: a key cut off mid-word says
/// less than one left off.
pub open spec fn fit_keys(keys: Seq<Seq<char>>, width: int) -> Seq<char>
    decreases keys.len(),
{
    fit_from(keys, width, seq![])
}

pub open spec fn fit_from(keys: Seq<Seq<char>>, width: int, line: Seq<char>) -> Seq<char>
    decreases keys.len(),
{
    if keys.len() == 0 {
        line
    } else if with_key(line, keys[0]).len() > width {
        line
    } else {
        fit_from(keys.drop_first(), width, with_key(line, keys[0]))
    }
}

/// As many whole keys as fit in `width`, in order.
pub fn fit(keys: &[String], width: u16) -> (r: String)
    ensures
        r@ == fit_keys(string_views(keys@), width as int),
        r@.len() <= width,
{
    let ghost ks = string_views(keys@);
    let mut line: Vec<char> = Vec::new();
    let mut k: usize = 0;
    assert(ks.skip(0) =~= ks);
    assert(line@ =~= Seq::<char>::empty());
    proof {
        reveal_strlit(" · ");
    }
    while k < keys.len()
        invariant
            k <= keys@.len(),
            ks == string_views(keys@),
            fit_keys(ks, width as int) == fit_from(ks.skip(k as int), width as int, line@),
            line@.len() <= width,
        decreases keys@.len() - k,
    {
        assert(ks.skip(k as int)[0] == keys@[k as int]@);
        assert(ks.skip(k as int).drop_first() =~= ks.skip(k + 1));
        let key = chars_of(keys[k].as_str());
        let next = if line.len() == 0 {
            concat(&[' '], &key)
        } else {
            let a = concat(&line, &chars_of(" · "));
            concat(&a, &key)
        };
        assert(next@ == with_key(line@, key@)) by {
            if line@.len() == 0 {
                assert(seq![' '] =~= [' ']@);
            }
        }
        if next.len() > width as usize {
            return string_of(&line);
        }
        line = next;
        k = k + 1;
    }
    string_of(&line)
}

/// The row under a view, before it is coloured.
pub enum Footer {
    /// The `:` line while one is open; `placeholder` when nothing is typed yet
    /// and a dim `help` stands after the caret.
    Command { text: String, placeholder: bool },
    /// What the last action came to: green when it worked, yellow when not.
    Note { ok: bool, text: String },
    /// The keys the view answers to, as many as fit.
    Keys { keys: String },
    /// The keys, then `pad` spaces, then `:help ` against the right edge.
    KeysWithHelp { keys: String, pad: usize },
}

/// The row under a view: the keys it answers to, or for a note what the last
/// action came to, or the `:` line while one is open. Keys live here rather
/// than on pane borders, which only have room for what a pane is. `:help`,
/// when `help` says the view takes it, is kept at the right edge however
/// narrow the window, since it is the way to every key that falls off.
pub fn key_footer(
    actions: &[String],
    note: Option<&(bool, String)>,
    command: Option<&CommandLine>,
    help: bool,
    width: u16,
) -> (f: Footer)
    ensures
        match (command, note) {
            (Some(cmd), _) => f matches Footer::Command { text, placeholder } && text@ == cmd@
                && placeholder == (cmd@.len() == 0),
            (None, Some(n)) => f matches Footer::Note { ok, text } && ok == n.0 && text@ == n.1@,
            (None, None) => if !help {
                f matches Footer::Keys { keys } && keys@ == fit_keys(
                    string_views(actions@),
                    width as int,
                )
            } else {
                let left = fit_keys(string_views(actions@), sat_sub(width as int, 8));
                f matches Footer::KeysWithHelp { keys, pad } && keys@ == left && pad == sat_sub(
                    width as int,
                    left.len() + 6int,
                )
            },
        },
{
    match (command, note) {
        (Some(cmd), _) => {
            let text = cmd.text();
            let placeholder = cmd.text.len() == 0;
            Footer::Command { text, placeholder }
        },
        (None, Some(n)) => Footer::Note { ok: n.0, text: n.1.clone() },
        (None, None) => {
            if !help {
                Footer::Keys { keys: fit(actions, width) }
            } else {
                let room = (width as usize).saturating_sub(8);
                let keys = fit(actions, room as u16);
                let used = chars_of(keys.as_str()).len();
                let pad = (width as usize).saturating_sub(used + 6);
                Footer::KeysWithHelp { keys, pad }
            }
        },
    }
}

// ── scope tabs ──────────────────────────────────────────────────────────────

/// The most tabs a slider shows at once. More than this and a border runs out
/// of room, so a search with a dozen terms shows the ones around where you are.
pub const MAX_TABS: usize = 5;

/// Which of `len` tabs a slider shows with tab `picked` chosen: those from
/// `first` up to (not including) `last`, a window that slides with the picked
/// one once there are more than `MAX_TABS`. `‹` goes before when `first > 0`
/// and `›` after when `last < len`.
pub fn scope_tabs(len: usize, picked: usize) -> (r: (usize, usize))
    ensures
        r.0 == min(sat_sub(picked as int, 2), sat_sub(len as int, 5)),
        r.1 == min(r.0 + 5, len as int),
        r.0 <= r.1 <= len,
        picked < len ==> r.0 <= picked < r.1,
        r.1 - r.0 == min(5, len as int),
{
    let back = picked.saturating_sub(MAX_TABS / 2);
    let cap = len.saturating_sub(MAX_TABS);
    let first = if back < cap {
        back
    } else {
        cap
    };
    let last = if first + MAX_TABS < len {
        first + MAX_TABS
    } else {
        len
    };
    (first, last)
}

// ── the house box ───────────────────────────────────────────────────────────

/// Narrowest a box may be, so a two-word message still reads as a box.
pub const BOX_MIN_W: u16 = 24;

/// Widest, so one long line does not stretch a box across a 200-column screen.
pub const BOX_MAX_W: u16 = 88;

/// Rows the chrome costs: two borders plus the single top padding row.
pub const BOX_CHROME_H: u16 = 3;

/// Columns the chrome costs: two borders plus two columns of padding a side.
pub const BOX_CHROME_W: u16 = 6;

/// How wide a box is on a screen this wide.
pub fn box_width(screen_w: u16) -> (w: u16)
    ensures
        w == min(max(sat_sub(screen_w as int, 4), BOX_MIN_W as int), BOX_MAX_W as int),
        BOX_MIN_W <= w <= BOX_MAX_W,
{
    let w = screen_w.saturating_sub(4);
    if w < BOX_MIN_W {
        BOX_MIN_W
    } else if w > BOX_MAX_W {
        BOX_MAX_W
    } else {
        w
    }
}

/// The columns a body actually gets, which is what it must be wrapped to.
pub fn box_inner_width(width: u16) -> (w: usize)
    ensures
        w == max(sat_sub(width as int, BOX_CHROME_W as int), 1),
        w >= 1,
{
    let w = width.saturating_sub(BOX_CHROME_W);
    if w < 1 {
        1
    } else {
        w as usize
    }
}

/// How tall a box holding `body_rows` *wrapped* rows is, capped at the screen.
/// Pass the wrapped count, never the line count: measuring the unwrapped text
/// is what clips a modal's last row off and makes it look unanswerable.
///
/// The cap is the whole screen and not some fraction of it. A box is drawn
/// over a cleared area, so it owns the screen while it is up anyway, and a
/// fraction only decides in advance that a long one gets cut off.
pub fn box_height(body_rows: u16, screen_h: u16) -> (h: u16)
    ensures
        h == min(
            max(min(body_rows + BOX_CHROME_H, u16::MAX as int), BOX_CHROME_H + 1),
            max(screen_h as int, BOX_CHROME_H + 1),
        ),
        BOX_CHROME_H + 1 <= h,
        h <= max(screen_h as int, BOX_CHROME_H + 1),
{
    let floor = BOX_CHROME_H + 1;
    let rows = body_rows.saturating_add(BOX_CHROME_H);
    let top = if screen_h > floor {
        screen_h
    } else {
        floor
    };
    if rows < floor {
        floor
    } else if rows > top {
        top
    } else {
        rows
    }
}

/// `n / w` rounded up.
pub open spec fn div_ceil(n: int, w: int) -> int {
    (n + w - 1) / w
}

/// The rows each line takes once wrapped to `width` columns, added up.
pub open spec fn wrapped_rows(ls: Seq<Seq<char>>, width: int) -> int
    decreases ls.len(),
{
    if ls.len() == 0 {
        0
    } else {
        wrapped_rows(ls.drop_last(), width) + max(div_ceil(ls.last().len() as int, width), 1)
    }
}

proof fn lemma_wrapped_rows_grow(ls: Seq<Seq<char>>, width: int, k: int)
    requires
        0 <= k <= ls.len(),
        width >= 1,
    ensures
        wrapped_rows(ls.take(k), width) <= wrapped_rows(ls, width),
    decreases ls.len() - k,
{
    if k < ls.len() {
        lemma_wrapped_rows_grow(ls, width, k + 1);
        assert(ls.take(k + 1).drop_last() =~= ls.take(k));
    } else {
        assert(ls.take(k) =~= ls);
    }
}

/// Every line takes at least one row.
pub proof fn lemma_wrapped_rows_at_least_lines(ls: Seq<Seq<char>>, width: int)
    ensures
        wrapped_rows(ls, width) >= ls.len(),
    decreases ls.len(),
{
    if ls.len() > 0 {
        lemma_wrapped_rows_at_least_lines(ls.drop_last(), width);
    }
}

/// Rows `text` takes once wrapped to `width` columns: each line its length
/// over the width rounded up, and at least one.
pub fn wrapped_height(text: &str, width: usize) -> (h: usize)
    requires
        width > 0 || lines(text@).len() == 0,
        wrapped_rows(lines(text@), width as int) <= usize::MAX,
    ensures
        h == wrapped_rows(lines(text@), width as int),
        h >= lines(text@).len(),
{
    proof {
        lemma_wrapped_rows_at_least_lines(lines(text@), width as int);
    }
    let ls = lines_in(&chars_of(text));
    let ghost all = seqs(ls@);
    let mut h: usize = 0;
    let mut k: usize = 0;
    while k < ls.len()
        invariant
            k <= ls@.len(),
            all == seqs(ls@),
            all == lines(text@),
            width > 0 || all.len() == 0,
            wrapped_rows(all, width as int) <= usize::MAX,
            h == wrapped_rows(all.take(k as int), width as int),
        decreases ls@.len() - k,
    {
        assert(all.take(k + 1).drop_last() =~= all.take(k as int));
        assert(all.take(k + 1).last() == ls@[k as int]@);
        proof {
            lemma_wrapped_rows_grow(all, width as int, k + 1);
        }
        let n = ls[k].len();
        let rows = if n == 0 {
            1
        } else {
            (n - 1) / width + 1
        };
        assert(rows == max(div_ceil(n as int, width as int), 1)) by (nonlinear_arith)
            requires
                width > 0,
                rows == (if n == 0 {
                    1int
                } else {
                    (n - 1) / (width as int) + 1
                }),
        {
            if n > 0 {
                assert((n + width - 1) / (width as int) == (n - 1) / (width as int) + 1);
            } else {
                assert((width - 1) / (width as int) == 0);
            }
        }
        h = h + rows;
        k = k + 1;
    }
    assert(all.take(all.len() as int) =~= all);
    h
}

/// A place on the screen, in cells.
#[derive(Clone, Copy, PartialEq, Eq, Debug, Structural)]
pub struct Rect {
    pub x: u16,
    pub y: u16,
    pub width: u16,
    pub height: u16,
}

/// A box of at most `w`×`h`, centered in `area`.
pub fn popup_area(area: Rect, w: u16, h: u16) -> (r: Rect)
    requires
        area.x + area.width <= u16::MAX,
        area.y + area.height <= u16::MAX,
    ensures
        r.width == min(w as int, area.width as int),
        r.height == min(h as int, area.height as int),
        r.x == area.x + (area.width - r.width) / 2,
        r.y == area.y + (area.height - r.height) / 2,
        area.x <= r.x && r.x + r.width <= area.x + area.width,
        area.y <= r.y && r.y + r.height <= area.y + area.height,
{
    let w = if w < area.width {
        w
    } else {
        area.width
    };
    let h = if h < area.height {
        h
    } else {
        area.height
    };
    Rect { x: area.x + (area.width - w) / 2, y: area.y + (area.height - h) / 2, width: w, height: h }
}


// ── modal ───────────────────────────────────────────────────────────────────

/// Yellow for an alert, cyan for a reader: the one thing that tells the kinds
/// of box apart.
#[derive(Clone, Copy, PartialEq, Eq, Debug, Structural)]
pub enum Tone {
    Alert,
    Reader,
}

/// A box over the whole screen with something the user has to read: a title, a
/// body, and no way past it but dismissing it.
///
/// It exists because the alternative is a line in a pane title, which is where
/// a failed `git difftool` used to be reported and where nobody looked: the
/// screen came back unchanged and the run looked like a no-op. A view holds an
/// `Option<Modal>` and hands it the keys first, the way the drill gates on its
/// confirm popup.
pub struct Modal {
    title: String,
    body: String,
    scroll: u16,
    tone: Tone,
}

/// A modal as its contracts see it.
pub struct ModalV {
    pub title: Seq<char>,
    pub body: Seq<char>,
    pub scroll: u16,
    pub tone: Tone,
}

impl View for Modal {
    type V = ModalV;

    closed spec fn view(&self) -> ModalV {
        ModalV { title: self.title@, body: self.body@, scroll: self.scroll, tone: self.tone }
    }
}

/// The widest key of a reader's rows, in characters.
pub open spec fn key_width(rows: Seq<(Seq<char>, Seq<char>)>) -> int
    decreases rows.len(),
{
    if rows.len() == 0 {
        0
    } else {
        max(key_width(rows.drop_last()), rows.last().0.len() as int)
    }
}

/// A reader's body: each key padded to the widest key and three columns more,
/// then what it does, one row per line.
pub open spec fn reader_body(rows: Seq<(Seq<char>, Seq<char>)>) -> Seq<char> {
    join(
        rows.map_values(
            |r: (Seq<char>, Seq<char>)| pad_right(r.0, (key_width(rows) + 3) as nat) + r.1,
        ),
        seq!['\n'],
    )
}

pub open spec fn row_views(rows: Seq<(String, String)>) -> Seq<(Seq<char>, Seq<char>)> {
    rows.map_values(|r: (String, String)| (r.0@, r.1@))
}

/// The keys line an alert ends with.
pub const ALERT_KEYS: &'static str = "j/k ↑↓ scroll · esc dismiss";

/// The keys line a reader ends with.
pub const READER_KEYS: &'static str = "j/k ↑↓ scroll · esc close";

impl Modal {
    pub fn new(title: String, body: String) -> (m: Modal)
        ensures
            m@ == (ModalV { title: title@, body: body@, scroll: 0, tone: Tone::Alert }),
    {
        Modal { title, body, scroll: 0, tone: Tone::Alert }
    }

    /// A reader: the same box in cyan, for something read by choice rather
    /// than something that went wrong. `rows` is a key and what it does, one
    /// per line, the keys in one column.
    pub fn reader(title: String, rows: &[(String, String)]) -> (m: Modal)
        requires
            key_width(row_views(rows@)) + 3 <= usize::MAX,
        ensures
            m@ == (ModalV {
                title: title@,
                body: reader_body(row_views(rows@)),
                scroll: 0,
                tone: Tone::Reader,
            }),
    {
        let ghost rv = row_views(rows@);
        let mut widest: usize = 0;
        let mut k: usize = 0;
        while k < rows.len()
            invariant
                k <= rows@.len(),
                rv == row_views(rows@),
                key_width(rv) + 3 <= usize::MAX,
                widest == key_width(rv.take(k as int)),
                widest <= key_width(rv),
            decreases rows@.len() - k,
        {
            assert(rv.take(k + 1).drop_last() =~= rv.take(k as int));
            proof {
                lemma_key_width_grows(rv, k + 1);
            }
            let n = chars_of(rows[k].0.as_str()).len();
            if n > widest {
                widest = n;
            }
            k = k + 1;
        }
        assert(rv.take(rows@.len() as int) =~= rv);
        let w = widest + 3;
        let mut lines: Vec<Vec<char>> = Vec::new();
        let ghost f = |r: (Seq<char>, Seq<char>)| pad_right(r.0, (key_width(rv) + 3) as nat) + r.1;
        let mut j: usize = 0;
        while j < rows.len()
            invariant
                j <= rows@.len(),
                rv == row_views(rows@),
                w == key_width(rv) + 3,
                f == (|r: (Seq<char>, Seq<char>)| pad_right(r.0, (key_width(rv) + 3) as nat) + r.1),
                seqs(lines@) == rv.take(j as int).map_values(f),
            decreases rows@.len() - j,
        {
            let key = pad_right_in(&chars_of(rows[j].0.as_str()), w);
            let row = concat(&key, &chars_of(rows[j].1.as_str()));
            let ghost before = seqs(lines@);
            lines.push(row);
            assert(seqs(lines@) =~= before.push(f(rv[j as int])));
            assert(rv.take(j + 1).map_values(f) =~= rv.take(j as int).map_values(f).push(
                f(rv[j as int]),
            ));
            j = j + 1;
        }
        assert(rv.take(rows@.len() as int) =~= rv);
        let body = join_in(&lines, &['\n']);
        assert(['\n']@ =~= seq!['\n']);
        Modal { title, body: string_of(&body), scroll: 0, tone: Tone::Reader }
    }

    /// Free text under a reader's rows, a blank line apart: a message, which
    /// wraps on its own rather than hanging under the rows' second column.
    pub fn with_text(self, text: &str) -> (m: Modal)
        ensures
            m@ == (ModalV {
                body: if text@.len() == 0 {
                    self@.body
                } else {
                    self@.body + seq!['\n', '\n'] + text@
                },
                ..self@
            }),
    {
        if text.is_empty() {
            return self;
        }
        let gap = concat(&chars_of(self.body.as_str()), &['\n', '\n']);
        let body = concat(&gap, &chars_of(text));
        assert(['\n', '\n']@ =~= seq!['\n', '\n']);
        Modal { body: string_of(&body), ..self }
    }

    /// Handle one key while the modal is up. Returns true when it was
    /// dismissed, so the caller drops it. Movement keys scroll a body too long
    /// for the box; anything else is swallowed, so a stray keypress can't
    /// close a message before it is read.
    pub fn on_key(&mut self, code: Key) -> (done: bool)
        ensures
            done == (code == Key::Esc || code == Key::Enter || code == Key::Char('q') || code
                == Key::Char(' ')),
            final(self)@ == (ModalV {
                scroll: if code == Key::Char('j') || code == Key::Down {
                    min(old(self)@.scroll + 1, u16::MAX as int) as u16
                } else if code == Key::Char('k') || code == Key::Up {
                    sat_sub(old(self)@.scroll as int, 1) as u16
                } else {
                    old(self)@.scroll
                },
                ..old(self)@
            }),
    {
        if is_down(code) {
            self.scroll = self.scroll.saturating_add(1);
        } else if is_up(code) {
            self.scroll = self.scroll.saturating_sub(1);
        } else if is_back(code) || code == Key::Enter || code == Key::Char('q') || code
            == Key::Char(' ') {
            return true;
        }
        false
    }

    pub fn title(&self) -> (s: &str)
        ensures
            s@ == self@.title,
    {
        self.title.as_str()
    }

    pub fn body(&self) -> (s: &str)
        ensures
            s@ == self@.body,
    {
        self.body.as_str()
    }

    pub fn scroll(&self) -> (s: u16)
        ensures
            s == self@.scroll,
    {
        self.scroll
    }

    pub fn tone(&self) -> (t: Tone)
        ensures
            t == self@.tone,
    {
        self.tone
    }

    /// The line of keys the box ends with.
    pub fn keys(&self) -> (k: &'static str)
        ensures
            k@ == if self@.tone == Tone::Alert {
                ALERT_KEYS@
            } else {
                READER_KEYS@
            },
    {
        match self.tone {
            Tone::Alert => ALERT_KEYS,
            Tone::Reader => READER_KEYS,
        }
    }

    /// Where the box goes on a screen `screen`, and the scroll it is drawn at,
    /// kept so the last row of the body can never scroll above the box.
    /// Measured from the wrapped text, never its line count: counting
    /// unwrapped lines is what clips the bottom off a long message.
    pub fn layout(&mut self, screen: Rect) -> (area: Rect)
        requires
            screen.x + screen.width <= u16::MAX,
            screen.y + screen.height <= u16::MAX,
            wrapped_rows(
                lines(old(self)@.body),
                max(sat_sub(box_width_of(screen.width) as int, BOX_CHROME_W as int), 1),
            ) <= usize::MAX,
            wrapped_rows(
                lines(old(self)@.body),
                max(sat_sub(box_width_of(screen.width) as int, BOX_CHROME_W as int), 1),
            ) % 65536 + 2 <= u16::MAX,
        ensures
            ({
                let width = box_width_of(screen.width);
                let rows = wrapped_rows(
                    lines(old(self)@.body),
                    max(sat_sub(width as int, BOX_CHROME_W as int), 1),
                ) % 65536;
                let height = min(
                    max(min(rows + 2 + BOX_CHROME_H, u16::MAX as int), BOX_CHROME_H + 1),
                    max(screen.height as int, BOX_CHROME_H + 1),
                );
                &&& area.width == min(width as int, screen.width as int)
                &&& area.height == min(height, screen.height as int)
                &&& area.x == screen.x + (screen.width - area.width) / 2
                &&& area.y == screen.y + (screen.height - area.height) / 2
                &&& final(self)@ == (ModalV {
                    scroll: min(
                        old(self)@.scroll as int,
                        scroll_limit(rows, sat_sub(area.height as int, BOX_CHROME_H as int)),
                    ) as u16,
                    ..old(self)@
                })
            }),
    {
        let width = box_width(screen.width);
        let inner = box_inner_width(width);
        let rows = wrapped_height(self.body.as_str(), inner);
        let body_h = (rows % 65536) as u16;
        let area = popup_area(screen, width, box_height(body_h + 2, screen.height));
        let viewport = area.height.saturating_sub(BOX_CHROME_H);
        self.scroll = clamp_scroll(self.scroll, body_h as usize, viewport);
        area
    }
}

/// How wide a box is on a screen this wide.
pub open spec fn box_width_of(screen_w: u16) -> u16 {
    min(max(sat_sub(screen_w as int, 4), BOX_MIN_W as int), BOX_MAX_W as int) as u16
}

proof fn lemma_key_width_grows(rows: Seq<(Seq<char>, Seq<char>)>, k: int)
    requires
        0 <= k <= rows.len(),
    ensures
        key_width(rows.take(k)) <= key_width(rows),
        k > 0 ==> rows[k - 1].0.len() <= key_width(rows),
    decreases rows.len() - k,
{
    if k < rows.len() {
        lemma_key_width_grows(rows, k + 1);
        assert(rows.take(k + 1).drop_last() =~= rows.take(k));
        assert(rows.take(k + 1).last() == rows[k]);
    } else {
        assert(rows.take(k) =~= rows);
    }
    if k > 0 {
        assert(rows.take(k).last() == rows[k - 1]);
        assert(key_width(rows.take(k)) >= rows.take(k).last().0.len());
    }
}

// ── a text field: the query bars ────────────────────────────────────────────

/// A line of text being typed, with a caret counted in characters, so an
/// insert or a delete never lands inside a multi-byte character.
pub struct Query {
    pub text: String,
    pub caret: usize,
}

/// What an editing key does to a field holding `text` with the caret at
/// `caret`: the text and the caret after it. A character is typed only without
/// Ctrl; Backspace and Delete take the character before and under the caret;
/// the arrows, Home and End move the caret, never past either end.
pub open spec fn edited(text: Seq<char>, caret: int, code: Key, ctrl: bool) -> (Seq<char>, int) {
    match code {
        Key::Char(c) => if !ctrl {
            (text.take(caret) + seq![c] + text.skip(caret), caret + 1)
        } else {
            (text, caret)
        },
        Key::Backspace => if caret > 0 {
            (text.take(caret - 1) + text.skip(caret), caret - 1)
        } else {
            (text, caret)
        },
        Key::Delete => if caret < text.len() {
            (text.take(caret) + text.skip(caret + 1), caret)
        } else {
            (text, caret)
        },
        Key::Left => if caret > 0 {
            (text, caret - 1)
        } else {
            (text, caret)
        },
        Key::Right => if caret < text.len() {
            (text, caret + 1)
        } else {
            (text, caret)
        },
        Key::Home => (text, 0),
        Key::End => (text, text.len() as int),
        _ => (text, caret),
    }
}

/// Whether a filter with the text `q` keeps a row whose haystack is `hay`:
/// the haystack holds the text, case aside. An empty filter keeps every row.
pub open spec fn query_keeps(q: Seq<char>, hay: Seq<char>) -> bool {
    crate::text::contains(crate::history::lowercase(hay), crate::history::lowercase(q))
}

impl Query {
    /// The caret stands within the text or at its end.
    pub open spec fn wf(&self) -> bool {
        self.caret <= self.text@.len()
    }

    /// An empty field.
    pub fn new() -> (q: Query)
        ensures
            q.wf(),
            q.text@.len() == 0,
            q.caret == 0,
    {
        Query { text: string_of(&[]), caret: 0 }
    }

    /// Open the field for typing, the caret at the end of what it holds.
    pub fn open(&mut self)
        ensures
            final(self).wf(),
            final(self).text@ == old(self).text@,
            final(self).caret == old(self).text@.len(),
    {
        self.caret = chars_of(self.text.as_str()).len();
    }

    /// Empty the field.
    pub fn clear(&mut self)
        ensures
            final(self).wf(),
            final(self).text@.len() == 0,
            final(self).caret == 0,
    {
        self.text = string_of(&[]);
        self.caret = 0;
    }

    /// Apply one editing key, returning whether the text changed.
    pub fn edit(&mut self, code: Key, ctrl: bool) -> (changed: bool)
        requires
            old(self).wf(),
            old(self).text@.len() < usize::MAX,
        ensures
            final(self).wf(),
            (final(self).text@, final(self).caret as int) == edited(
                old(self).text@,
                old(self).caret as int,
                code,
                ctrl,
            ),
            changed == (final(self).text@ != old(self).text@),
    {
        let t = chars_of(self.text.as_str());
        let n = t.len();
        let at = self.caret;
        match code {
            Key::Char(c) => {
                if !ctrl {
                    let one = [c];
                    let v = concat(&concat(&slice_vec(&t, 0, at), &one), &slice_vec(&t, at, n));
                    assert(v@ =~= t@.take(at as int) + seq![c] + t@.skip(at as int));
                    assert(v@.len() == t@.len() + 1);
                    assert(v@[at as int] == c);
                    self.text = string_of(&v);
                    self.caret = at + 1;
                    return true;
                }
                false
            },
            Key::Backspace => {
                if at > 0 {
                    let v = concat(&slice_vec(&t, 0, at - 1), &slice_vec(&t, at, n));
                    assert(v@ =~= t@.take(at - 1) + t@.skip(at as int));
                    assert(v@.len() == t@.len() - 1);
                    self.text = string_of(&v);
                    self.caret = at - 1;
                    return true;
                }
                false
            },
            Key::Delete => {
                if at < n {
                    let v = concat(&slice_vec(&t, 0, at), &slice_vec(&t, at + 1, n));
                    assert(v@ =~= t@.take(at as int) + t@.skip(at + 1));
                    assert(v@.len() == t@.len() - 1);
                    self.text = string_of(&v);
                    return true;
                }
                false
            },
            Key::Left => {
                if at > 0 {
                    self.caret = at - 1;
                }
                false
            },
            Key::Right => {
                if at < n {
                    self.caret = at + 1;
                }
                false
            },
            Key::Home => {
                self.caret = 0;
                false
            },
            Key::End => {
                self.caret = n;
                false
            },
            _ => false,
        }
    }

    /// Whether the filter keeps a row whose haystack is `hay`.
    pub fn keeps(&self, hay: &str) -> (b: bool)
        ensures
            b == query_keeps(self.text@, hay@),
    {
        let h = chars_of(crate::history::to_lowercase(hay).as_str());
        let q = chars_of(crate::history::to_lowercase(self.text.as_str()).as_str());
        crate::text::contains_in(&h, &q)
    }
}

} // verus!
