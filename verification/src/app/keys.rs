//! Key dispatch, one arm per level. What a key does is decided here; the view
//! performs it.
//!
//! The shape is the same everywhere: plain keys drive the top pane, Ctrl drives
//! the pane below it, `h`/`l` slide that level's scope, Enter drills in and Esc
//! steps back out.

use crate::app::{Level, Pane};
use crate::tui::input::{is_back, is_down, is_left, is_open, is_right, is_up, Key};
use vstd::prelude::*;

verus! {

/// What stands in front of the view and so gets a key first.
#[derive(Clone, Copy, PartialEq, Eq, Debug, Structural)]
pub enum Owner {
    /// Ctrl-C: quit from anywhere, even out from under a modal.
    Quit,
    /// A modal owns every key until it is dismissed.
    Modal,
    /// A delete that asks for the name to be typed.
    TypedGate,
    /// A delete that asks yes or no.
    PlainGate,
    /// An open `:` line.
    CommandLine,
    /// An open query bar over one pane: `q` types a letter there.
    QueryBar(Pane),
    /// Nothing is open: the view itself.
    View,
}

/// Who gets `code`: `modal` says a modal is up, `gate` whether a delete is
/// waiting on its answer and whether that answer is a typed name, `command`
/// whether the `:` line is open, `editing` which pane's query bar is.
pub open spec fn owner_of(
    code: Key,
    ctrl: bool,
    modal: bool,
    gate: Option<bool>,
    command: bool,
    editing: Option<Pane>,
) -> Owner {
    if ctrl && code == Key::Char('c') {
        Owner::Quit
    } else if modal {
        Owner::Modal
    } else if gate == Some(true) {
        Owner::TypedGate
    } else if gate == Some(false) {
        Owner::PlainGate
    } else if command {
        Owner::CommandLine
    } else if editing is Some {
        Owner::QueryBar(editing->0)
    } else {
        Owner::View
    }
}

pub fn key_owner(
    code: Key,
    ctrl: bool,
    modal: bool,
    gate: Option<bool>,
    command: bool,
    editing: Option<Pane>,
) -> (o: Owner)
    ensures
        o == owner_of(code, ctrl, modal, gate, command, editing),
{
    if ctrl && code == Key::Char('c') {
        Owner::Quit
    } else if modal {
        Owner::Modal
    } else {
        match gate {
            Some(true) => Owner::TypedGate,
            Some(false) => Owner::PlainGate,
            None => {
                if command {
                    Owner::CommandLine
                } else {
                    match editing {
                        Some(p) => Owner::QueryBar(p),
                        None => Owner::View,
                    }
                }
            },
        }
    }
}

/// What a key does to a delete that waits for its name to be typed. It goes
/// ahead only once the name is typed exactly, so no reflex gets through it.
#[derive(Clone, Copy, PartialEq, Eq, Debug, Structural)]
pub enum TypedAnswer {
    Delete,
    Cancel,
    /// Take the last typed character back.
    Erase,
    /// Type this character.
    Type(char),
    Nothing,
}

pub open spec fn typed_answer_of(code: Key, typed: Seq<char>, name: Seq<char>) -> TypedAnswer {
    match code {
        Key::Enter => if typed == name {
            TypedAnswer::Delete
        } else {
            TypedAnswer::Nothing
        },
        Key::Esc => TypedAnswer::Cancel,
        Key::Backspace => TypedAnswer::Erase,
        Key::Char(c) => TypedAnswer::Type(c),
        _ => TypedAnswer::Nothing,
    }
}

pub fn typed_answer(code: Key, typed: &str, name: &str) -> (a: TypedAnswer)
    ensures
        a == typed_answer_of(code, typed@, name@),
{
    match code {
        Key::Enter => {
            let t = crate::text::chars_of(typed);
            let n = crate::text::chars_of(name);
            if crate::text::same(&t, &n) {
                TypedAnswer::Delete
            } else {
                TypedAnswer::Nothing
            }
        },
        Key::Esc => TypedAnswer::Cancel,
        Key::Backspace => TypedAnswer::Erase,
        Key::Char(c) => TypedAnswer::Type(c),
        _ => TypedAnswer::Nothing,
    }
}

/// What a key does to a delete that asks yes or no. Yes stands on the left
/// and the cursor starts on No, so an Enter pressed by habit never deletes.
#[derive(Clone, Copy, PartialEq, Eq, Debug, Structural)]
pub enum PlainAnswer {
    /// The cursor on Yes.
    PickYes,
    /// The cursor on No.
    PickNo,
    Delete,
    Cancel,
    Nothing,
}

pub open spec fn plain_answer_of(code: Key, yes: bool) -> PlainAnswer {
    if code == Key::Char('h') || code == Key::Left {
        PlainAnswer::PickYes
    } else if code == Key::Char('l') || code == Key::Right {
        PlainAnswer::PickNo
    } else if code == Key::Char('y') || (code == Key::Enter && yes) {
        PlainAnswer::Delete
    } else if code == Key::Enter || code == Key::Esc || code == Key::Char('q') || code
        == Key::Char('n') {
        PlainAnswer::Cancel
    } else {
        PlainAnswer::Nothing
    }
}

pub fn plain_answer(code: Key, yes: bool) -> (a: PlainAnswer)
    ensures
        a == plain_answer_of(code, yes),
{
    if is_left(code) {
        PlainAnswer::PickYes
    } else if is_right(code) {
        PlainAnswer::PickNo
    } else if code == Key::Char('y') || (is_open(code) && yes) {
        PlainAnswer::Delete
    } else if is_open(code) || is_back(code) || code == Key::Char('q') || code == Key::Char('n') {
        PlainAnswer::Cancel
    } else {
        PlainAnswer::Nothing
    }
}

/// What a key does to an open query bar: Enter keeps what it found, Esc
/// clears it, so a filter is never left on a pane with no way to see it went
/// there; anything else is typing.
#[derive(Clone, Copy, PartialEq, Eq, Debug, Structural)]
pub enum QueryAnswer {
    Keep,
    Clear,
    Edit,
}

pub fn query_answer(code: Key) -> (a: QueryAnswer)
    ensures
        a == if code == Key::Enter {
            QueryAnswer::Keep
        } else if code == Key::Esc {
            QueryAnswer::Clear
        } else {
            QueryAnswer::Edit
        },
{
    match code {
        Key::Enter => QueryAnswer::Keep,
        Key::Esc => QueryAnswer::Clear,
        _ => QueryAnswer::Edit,
    }
}

/// What the rest of a level needs to know to answer a key.
#[derive(Clone, Copy, PartialEq, Eq, Debug, Structural)]
pub struct Context {
    /// The pane below the top one has nothing to drill into.
    pub bottom_empty: bool,
    /// The commits are stashes (`istash`).
    pub stashes: bool,
    /// The delete that `u` would put back: `Some(true)` a branch, `Some(false)`
    /// a tag.
    pub undo: Option<bool>,
}

/// What a key does at a level, once nothing stands in front of it.
#[derive(Clone, Copy, PartialEq, Eq, Debug, Structural)]
pub enum Act {
    /// Fetch and prune (`false`), or that and pull (`true`).
    Sync(bool),
    /// Ask before deleting the row under the cursor.
    Delete,
    /// Put back the last delete.
    Undo,
    /// Offer to track the tags' remote.
    Track,
    /// Apply the stash (`false`), or pop it (`true`).
    ApplyStash(bool),
    /// Ask before dropping the stash.
    DropStash,
    /// Move in the pane below, down (`true`) or up.
    StepBottom(bool),
    /// Move in the top pane, down (`true`) or up.
    StepTop(bool),
    /// Slide the top pane's scope, right (`true`) or left.
    Slide(bool),
    /// Drill into the row under the cursor.
    Open,
    /// Step back out.
    Back,
    /// Scroll the diff, down (`true`) or up.
    ScrollDiff(bool),
    /// Pan the diff, right (`true`) or left.
    PanDiff(bool),
    /// Open the file in the difftool.
    Difftool,
    Nothing,
}

pub open spec fn down_key(code: Key) -> bool {
    code == Key::Char('j') || code == Key::Down
}

pub open spec fn up_key(code: Key) -> bool {
    code == Key::Char('k') || code == Key::Up
}

pub open spec fn left_key(code: Key) -> bool {
    code == Key::Char('h') || code == Key::Left
}

pub open spec fn right_key(code: Key) -> bool {
    code == Key::Char('l') || code == Key::Right
}

/// The moves every list level shares: Ctrl moves the pane below, plain keys
/// the top one, `h`/`l` slide the scope, Enter drills in when there is
/// something below, Esc steps back.
pub open spec fn list_act(code: Key, ctrl: bool, ctx: Context) -> Act {
    if ctrl && (down_key(code) || up_key(code)) {
        Act::StepBottom(down_key(code))
    } else if down_key(code) || up_key(code) {
        Act::StepTop(down_key(code))
    } else if !ctrl && (left_key(code) || right_key(code)) {
        Act::Slide(right_key(code))
    } else if code == Key::Enter && !ctx.bottom_empty {
        Act::Open
    } else if code == Key::Esc {
        Act::Back
    } else {
        Act::Nothing
    }
}

/// What `code` does at `level`.
pub open spec fn act_of(level: Level, code: Key, ctrl: bool, ctx: Context) -> Act {
    let s_key = code == Key::Char('s') || code == Key::Char('S');
    match level {
        Level::Repos => if !ctrl && s_key {
            Act::Sync(code == Key::Char('S'))
        } else {
            list_act(code, ctrl, ctx)
        },
        Level::Branches => if !ctrl && code == Key::Char('d') {
            Act::Delete
        } else if !ctrl && code == Key::Char('u') {
            if ctx.undo == Some(true) {
                Act::Undo
            } else {
                Act::Nothing
            }
        } else if !ctrl && s_key {
            Act::Sync(code == Key::Char('S'))
        } else {
            list_act(code, ctrl, ctx)
        },
        Level::Tags => if !ctrl && code == Key::Char('d') {
            Act::Delete
        } else if !ctrl && code == Key::Char('u') {
            if ctx.undo == Some(false) {
                Act::Undo
            } else {
                Act::Nothing
            }
        } else if !ctrl && code == Key::Char('t') {
            Act::Track
        } else {
            list_act(code, ctrl, ctx)
        },
        Level::Commits => if ctx.stashes && !ctrl && code == Key::Char('a') {
            Act::ApplyStash(false)
        } else if ctx.stashes && !ctrl && code == Key::Char('p') {
            Act::ApplyStash(true)
        } else if ctx.stashes && !ctrl && code == Key::Char('d') {
            Act::DropStash
        } else if ctx.stashes && !ctrl && (left_key(code) || right_key(code)) {
            Act::Nothing
        } else {
            list_act(code, ctrl, ctx)
        },
        Level::Diff => if ctrl && (down_key(code) || up_key(code)) {
            Act::ScrollDiff(down_key(code))
        } else if ctrl && (left_key(code) || right_key(code)) {
            Act::PanDiff(right_key(code))
        } else if code == Key::Enter {
            Act::Difftool
        } else if code == Key::Esc {
            Act::Back
        } else {
            Act::Nothing
        },
    }
}

fn list_key(code: Key, ctrl: bool, ctx: Context) -> (a: Act)
    ensures
        a == list_act(code, ctrl, ctx),
{
    if ctrl && (is_down(code) || is_up(code)) {
        Act::StepBottom(is_down(code))
    } else if is_down(code) || is_up(code) {
        Act::StepTop(is_down(code))
    } else if !ctrl && (is_left(code) || is_right(code)) {
        Act::Slide(is_right(code))
    } else if is_open(code) && !ctx.bottom_empty {
        Act::Open
    } else if is_back(code) {
        Act::Back
    } else {
        Act::Nothing
    }
}

/// What a key does at a level. Repos and branches sync with `s` (and pull
/// with `S`); branches and tags delete with `d` and put the last delete back
/// with `u`; tags offer tracking with `t`; stashes apply with `a`, pop with
/// `p` and drop with `d`, and have no push state to slide between; the diff
/// scrolls and pans with Ctrl and opens the difftool with Enter.
pub fn level_key(level: Level, code: Key, ctrl: bool, ctx: Context) -> (a: Act)
    ensures
        a == act_of(level, code, ctrl, ctx),
{
    let s_key = code == Key::Char('s') || code == Key::Char('S');
    match level {
        Level::Repos => {
            if !ctrl && s_key {
                Act::Sync(code == Key::Char('S'))
            } else {
                list_key(code, ctrl, ctx)
            }
        },
        Level::Branches => {
            if !ctrl && code == Key::Char('d') {
                Act::Delete
            } else if !ctrl && code == Key::Char('u') {
                if ctx.undo == Some(true) {
                    Act::Undo
                } else {
                    Act::Nothing
                }
            } else if !ctrl && s_key {
                Act::Sync(code == Key::Char('S'))
            } else {
                list_key(code, ctrl, ctx)
            }
        },
        Level::Tags => {
            if !ctrl && code == Key::Char('d') {
                Act::Delete
            } else if !ctrl && code == Key::Char('u') {
                if ctx.undo == Some(false) {
                    Act::Undo
                } else {
                    Act::Nothing
                }
            } else if !ctrl && code == Key::Char('t') {
                Act::Track
            } else {
                list_key(code, ctrl, ctx)
            }
        },
        Level::Commits => {
            if ctx.stashes && !ctrl && code == Key::Char('a') {
                Act::ApplyStash(false)
            } else if ctx.stashes && !ctrl && code == Key::Char('p') {
                Act::ApplyStash(true)
            } else if ctx.stashes && !ctrl && code == Key::Char('d') {
                Act::DropStash
            } else if ctx.stashes && !ctrl && (is_left(code) || is_right(code)) {
                Act::Nothing
            } else {
                list_key(code, ctrl, ctx)
            }
        },
        Level::Diff => {
            if ctrl && (is_down(code) || is_up(code)) {
                Act::ScrollDiff(is_down(code))
            } else if ctrl && (is_left(code) || is_right(code)) {
                Act::PanDiff(is_right(code))
            } else if is_open(code) {
                Act::Difftool
            } else if is_back(code) {
                Act::Back
            } else {
                Act::Nothing
            }
        },
    }
}

/// What a key does once it reaches the view.
#[derive(Clone, Copy, PartialEq, Eq, Debug, Structural)]
pub enum ViewKey {
    Quit,
    /// Open the `:` line.
    OpenCommand,
    /// Open the query bar of this pane: `/` the top one, `?` the one below.
    Filter(Pane),
    /// Read the level again: another terminal may have committed since.
    Refresh,
    /// Everything about the row under the cursor.
    Inspect,
    /// The level's own answer.
    Level(Act),
}

pub open spec fn view_key_of(level: Level, code: Key, ctrl: bool, ctx: Context) -> ViewKey {
    if code == Key::Char('q') {
        ViewKey::Quit
    } else if code == Key::Char(':') {
        ViewKey::OpenCommand
    } else if code == Key::Char('/') {
        ViewKey::Filter(Pane::Top)
    } else if code == Key::Char('?') {
        ViewKey::Filter(Pane::Bottom)
    } else if code == Key::Char('r') {
        ViewKey::Refresh
    } else if !ctrl && code == Key::Char('K') {
        ViewKey::Inspect
    } else {
        ViewKey::Level(act_of(level, code, ctrl, ctx))
    }
}

/// What a key that reached the view does: `q` quits, `:` opens the command
/// line, `/` and `?` the filters, `r` reads the level again, `K` inspects,
/// and the rest is the level's.
pub fn view_key(level: Level, code: Key, ctrl: bool, ctx: Context) -> (v: ViewKey)
    ensures
        v == view_key_of(level, code, ctrl, ctx),
{
    if code == Key::Char('q') {
        ViewKey::Quit
    } else if code == Key::Char(':') {
        ViewKey::OpenCommand
    } else if code == Key::Char('/') {
        ViewKey::Filter(Pane::Top)
    } else if code == Key::Char('?') {
        ViewKey::Filter(Pane::Bottom)
    } else if code == Key::Char('r') {
        ViewKey::Refresh
    } else if !ctrl && code == Key::Char('K') {
        ViewKey::Inspect
    } else {
        ViewKey::Level(level_key(level, code, ctrl, ctx))
    }
}

/// Whether a load the top pane's cursor left pending has to finish before
/// this key: only another move of the top pane can safely leave it pending,
/// since anything else acts on the pane that load fills. `q`, `:`, `/`, `?`
/// and `r` are answered before the question arises.
pub fn settles(code: Key, ctrl: bool, pending: bool) -> (b: bool)
    ensures
        b == (pending && !(!ctrl && (down_key(code) || up_key(code) || left_key(code) || right_key(
            code,
        )))),
{
    let moving = !ctrl && (is_up(code) || is_down(code) || is_left(code) || is_right(code));
    pending && !moving
}

/// The title of the `:help` box at a level.
pub fn help_title(level: Level) -> (s: &'static str)
    ensures
        s@ == match level {
            Level::Repos => "keys · repos"@,
            Level::Branches => "keys · branches"@,
            Level::Tags => "keys · tags"@,
            Level::Commits => "keys · commits"@,
            Level::Diff => "keys · diff"@,
        },
{
    match level {
        Level::Repos => "keys · repos",
        Level::Branches => "keys · branches",
        Level::Tags => "keys · tags",
        Level::Commits => "keys · commits",
        Level::Diff => "keys · diff",
    }
}

/// Ctrl-C quits whatever is open, and whatever is open gets every other key
/// before the view does: a `q` typed into a query bar or a gate is a letter.
pub proof fn lemma_owners_first(
    code: Key,
    ctrl: bool,
    modal: bool,
    gate: Option<bool>,
    command: bool,
    editing: Option<Pane>,
)
    ensures
        ctrl && code == Key::Char('c') ==> owner_of(code, ctrl, modal, gate, command, editing)
            == Owner::Quit,
        owner_of(code, ctrl, modal, gate, command, editing) == Owner::View <==> !(ctrl && code
            == Key::Char('c')) && !modal && gate is None && !command && editing is None,
{
    if let Some(b) = gate {
        assert(gate == Some(true) || gate == Some(false));
    }
}

/// A gate that asks for the name deletes on Enter with the name typed
/// exactly, and on nothing else.
pub proof fn lemma_typed_gate_needs_name(code: Key, typed: Seq<char>, name: Seq<char>)
    ensures
        typed_answer_of(code, typed, name) == TypedAnswer::Delete <==> (code == Key::Enter
            && typed == name),
{
}

/// A gate that asks yes or no deletes on `y`, or on Enter once Yes is picked;
/// it opens on No, where Enter cancels.
pub proof fn lemma_plain_gate_opens_on_no(code: Key, yes: bool)
    ensures
        plain_answer_of(code, yes) == PlainAnswer::Delete <==> (code == Key::Char('y') || (code
            == Key::Enter && yes)),
        plain_answer_of(Key::Enter, false) == PlainAnswer::Cancel,
{
}

/// Which list a pane of a level shows, the one its filter narrows.
#[derive(Clone, Copy, PartialEq, Eq, Debug, Structural)]
pub enum List {
    Repos,
    Branches,
    Tags,
    Commits,
    Files,
}

/// The list under `pane` at `level`. The diff has no list of its own below
/// the commits, so no filter opens there.
pub open spec fn pane_list_of(level: Level, pane: Pane) -> Option<List> {
    match (level, pane) {
        (Level::Repos, Pane::Top) => Some(List::Repos),
        (Level::Repos, Pane::Bottom) | (Level::Branches, Pane::Top) => Some(List::Branches),
        (Level::Tags, Pane::Top) => Some(List::Tags),
        (Level::Branches, Pane::Bottom) | (Level::Tags, Pane::Bottom) | (Level::Commits, Pane::Top) => Some(
            List::Commits,
        ),
        (Level::Commits, Pane::Bottom) => Some(List::Files),
        (Level::Diff, _) => None,
    }
}

pub fn pane_list(level: Level, pane: Pane) -> (l: Option<List>)
    ensures
        l == pane_list_of(level, pane),
{
    match (level, pane) {
        (Level::Repos, Pane::Top) => Some(List::Repos),
        (Level::Repos, Pane::Bottom) | (Level::Branches, Pane::Top) => Some(List::Branches),
        (Level::Tags, Pane::Top) => Some(List::Tags),
        (Level::Branches, Pane::Bottom) | (Level::Tags, Pane::Bottom) | (Level::Commits, Pane::Top) => Some(
            List::Commits,
        ),
        (Level::Commits, Pane::Bottom) => Some(List::Files),
        (Level::Diff, _) => None,
    }
}

} // verus!
