//! `d`: deleting the branch or tag under the cursor, behind a gate.
//!
//! What is finished or cheap to recreate - a branch whose upstream is gone, a
//! tag no remote has - gets the Yes/No gate. What cannot be taken back and that
//! somebody else depends on or that exists nowhere else - anything on a remote,
//! commits no remote has - gets the typed gate, which only the thing's name
//! opens. Anything else is refused with a box that says why, so `d` never
//! silently does nothing.

use crate::app::Sel;
use crate::git::load::{tag_rule, tag_rule_of, Branch, Tag, TagState};
use crate::git::tags::RemoteTags;
use crate::num::{decimal, decimal_of};
use crate::text::{
    chars_of, concat, contains, contains_in, join, join_in, lines, lines_in, same, seqs,
    slice_vec, split_once, split_once_in, string_of, strip_prefix,
};
use crate::tui::widgets::Hue;
use vstd::prelude::*;

verus! {

/// How many lines of git's own complaint a box shows, so a long one cannot
/// fill the screen.
pub const GIT_WORDS: usize = 8;

/// What a gate is about.
pub enum Target {
    /// A local branch. `lost` counts its commits no remote has; `landed` is
    /// whether their changes are in the remote's main line anyway (`trunk`),
    /// as a squash or rebase merge leaves them. Commits whose changes are not
    /// are work that exists nowhere else, and put it behind the typed gate.
    Branch { name: String, lost: usize, landed: bool, trunk: String },
    /// A tag no remote has this version of.
    Tag { name: String, differs: bool },
    /// A tag deleted on the remote, for everyone, and here too when `here`.
    RemoteTag { remote: String, name: String, here: bool },
    RemoteBranch { remote: String, branch: String },
    /// `t`: add the fetch rule that has git keep a copy of this remote's tags.
    Track(String),
}

/// A box the drill is waiting on an answer from.
pub struct Confirm {
    pub target: Target,
    /// Which button is lit. A delete opens on No, the offer to track on Yes.
    pub yes: bool,
    /// What has been typed, for a target that has to be named to go ahead.
    pub typed: String,
}

impl Confirm {
    pub fn new(target: Target) -> (c: Confirm)
        ensures
            c.yes == (target is Track),
            c.typed@ == Seq::<char>::empty(),
            c.target == target,
    {
        let yes = match &target {
            Target::Track(_) => true,
            _ => false,
        };
        Confirm { yes, typed: String::new(), target }
    }
}

pub open spec fn title_of(t: Target) -> Seq<char> {
    match t {
        Target::Branch { name, lost, landed, .. } => if lost > 0 && !landed {
            "delete "@ + name@ + " here, with its commits?"@
        } else {
            "delete this branch?"@
        },
        Target::Tag { .. } => "delete this tag?"@,
        Target::RemoteTag { remote, name, here } => if here {
            "delete "@ + name@ + " on "@ + remote@ + " and here?"@
        } else {
            "delete "@ + name@ + " on "@ + remote@ + seq!['?']
        },
        Target::RemoteBranch { remote, branch } => "delete "@ + branch@ + " on "@ + remote@
            + seq!['?'],
        Target::Track(_) => "show push marks instantly?"@,
    }
}

pub open spec fn name_of(t: Target) -> Seq<char> {
    match t {
        Target::Branch { name, .. } => name@,
        Target::Tag { name, .. } => name@,
        Target::RemoteTag { name, .. } => name@,
        Target::RemoteBranch { branch, .. } => branch@,
        Target::Track(remote) => "git keeps a copy of "@ + remote@
            + "'s tags, like it does its branches"@,
    }
}

pub open spec fn note_of(t: Target) -> Seq<char> {
    match t {
        Target::Branch { lost, landed, trunk, .. } => if lost == 0 {
            "no commits of its own: everything in it is already on the remote, so only the name goes"@
        } else if landed {
            "its changes are all in "@ + trunk@ + " already, so only the name goes"@
        } else if lost == 1 {
            "about to remove the branch and the commit only it holds"@
        } else {
            "about to remove the branch and the "@ + decimal(lost as nat)
                + " commits only it holds"@
        },
        Target::Tag { differs, .. } => if differs {
            "only yours goes: the remote's comes back with `git fetch --tags`"@
        } else {
            "the commit stays; only the tag goes"@
        },
        Target::RemoteTag { remote, .. } => "everyone loses it on "@ + remote@
            + "; clones that fetched it keep a copy"@,
        Target::RemoteBranch { remote, .. } => "everyone loses it on "@ + remote@
            + "; your own branches are untouched"@,
        Target::Track(remote) => "adds to .git/config: fetch = "@ + tag_rule_of(remote@)
            + "\nundo: git config --unset remote."@ + remote@ + ".fetch remote-tags"@,
    }
}

impl Target {
    /// Whether it takes the typed gate: something that cannot be taken back
    /// and that other people depend on or that exists nowhere else.
    pub fn typed(&self) -> (b: bool)
        ensures
            b == match *self {
                Target::Branch { lost, landed, .. } => lost > 0 && !landed,
                Target::RemoteTag { .. } => true,
                Target::RemoteBranch { .. } => true,
                Target::Tag { .. } => false,
                Target::Track(_) => false,
            },
    {
        match self {
            Target::Branch { lost, landed, .. } => *lost > 0 && !*landed,
            Target::RemoteTag { .. } | Target::RemoteBranch { .. } => true,
            Target::Tag { .. } | Target::Track(_) => false,
        }
    }

    pub fn title(&self) -> (s: String)
        ensures
            s@ == title_of(*self),
    {
        let q = ['?'];
        assert(q@ =~= seq!['?']);
        let v = match self {
            Target::Branch { name, lost, landed, .. } => if *lost > 0 && !*landed {
                let a = concat(&chars_of("delete "), &chars_of(name.as_str()));
                concat(&a, &chars_of(" here, with its commits?"))
            } else {
                chars_of("delete this branch?")
            },
            Target::Tag { .. } => chars_of("delete this tag?"),
            Target::RemoteTag { remote, name, here } => {
                let a = concat(&chars_of("delete "), &chars_of(name.as_str()));
                let b = concat(&a, &chars_of(" on "));
                let c = concat(&b, &chars_of(remote.as_str()));
                if *here {
                    concat(&c, &chars_of(" and here?"))
                } else {
                    concat(&c, &q)
                }
            },
            Target::RemoteBranch { remote, branch } => {
                let a = concat(&chars_of("delete "), &chars_of(branch.as_str()));
                let b = concat(&a, &chars_of(" on "));
                let c = concat(&b, &chars_of(remote.as_str()));
                concat(&c, &q)
            },
            Target::Track(_) => chars_of("show push marks instantly?"),
        };
        string_of(&v)
    }

    /// What the box names, which is also what a typed gate wants typed.
    pub fn name(&self) -> (s: String)
        ensures
            s@ == name_of(*self),
    {
        let v = match self {
            Target::Branch { name, .. } => chars_of(name.as_str()),
            Target::Tag { name, .. } => chars_of(name.as_str()),
            Target::RemoteTag { name, .. } => chars_of(name.as_str()),
            Target::RemoteBranch { branch, .. } => chars_of(branch.as_str()),
            Target::Track(remote) => {
                let a = concat(&chars_of("git keeps a copy of "), &chars_of(remote.as_str()));
                concat(&a, &chars_of("'s tags, like it does its branches"))
            },
        };
        string_of(&v)
    }

    /// What else to know before answering.
    pub fn note(&self) -> (s: String)
        ensures
            s@ == note_of(*self),
    {
        let v = match self {
            Target::Branch { lost, landed, trunk, .. } => if *lost == 0 {
                chars_of(
                    "no commits of its own: everything in it is already on the remote, so only the name goes",
                )
            } else if *landed {
                let a = concat(&chars_of("its changes are all in "), &chars_of(trunk.as_str()));
                concat(&a, &chars_of(" already, so only the name goes"))
            } else if *lost == 1 {
                chars_of("about to remove the branch and the commit only it holds")
            } else {
                let a = concat(
                    &chars_of("about to remove the branch and the "),
                    &decimal_of(*lost as u64),
                );
                concat(&a, &chars_of(" commits only it holds"))
            },
            Target::Tag { differs, .. } => if *differs {
                chars_of("only yours goes: the remote's comes back with `git fetch --tags`")
            } else {
                chars_of("the commit stays; only the tag goes")
            },
            Target::RemoteTag { remote, .. } => {
                let a = concat(&chars_of("everyone loses it on "), &chars_of(remote.as_str()));
                concat(&a, &chars_of("; clones that fetched it keep a copy"))
            },
            Target::RemoteBranch { remote, .. } => {
                let a = concat(&chars_of("everyone loses it on "), &chars_of(remote.as_str()));
                concat(&a, &chars_of("; your own branches are untouched"))
            },
            Target::Track(remote) => {
                let rule = tag_rule(remote.as_str());
                let a = concat(&chars_of("adds to .git/config: fetch = "), &chars_of(rule.as_str()));
                let b = concat(&a, &chars_of("\nundo: git config --unset remote."));
                let c = concat(&b, &chars_of(remote.as_str()));
                concat(&c, &chars_of(".fetch remote-tags"))
            },
        };
        string_of(&v)
    }

    /// Red for a delete, cyan for the offer to track.
    pub fn colour(&self) -> (h: Hue)
        ensures
            h == if *self is Track {
                Hue::Cyan
            } else {
                Hue::Red
            },
    {
        match self {
            Target::Track(_) => Hue::Cyan,
            _ => Hue::Red,
        }
    }

    /// Whether the answer reaches a remote, and so runs only after the frame
    /// that says it is on its way.
    pub fn remote(&self) -> (b: bool)
        ensures
            b == (*self is RemoteTag || *self is RemoteBranch),
    {
        match self {
            Target::RemoteTag { .. } | Target::RemoteBranch { .. } => true,
            _ => false,
        }
    }
}

// ── which gate ──────────────────────────────────────────────────────────────

/// Where a branch lives: a remote one is `remote/branch` (taken as `origin`
/// when its name has no `/`), a local one has no remote.
pub open spec fn branch_parts_of(remote: bool, name: Seq<char>) -> (Seq<char>, Seq<char>) {
    if remote {
        match split_once(name, seq!['/']) {
            Some((r, b)) => (r, b),
            None => ("origin"@, name),
        }
    } else {
        (seq![], name)
    }
}

pub fn branch_parts(b: &Branch) -> (r: (String, String))
    ensures
        (r.0@, r.1@) == branch_parts_of(b.remote, b.name@),
{
    let name = chars_of(b.name.as_str());
    if b.remote {
        let slash = ['/'];
        assert(slash@ =~= seq!['/']);
        match split_once_in(&name, &slash) {
            Some((r, br)) => (string_of(&r), string_of(&br)),
            None => (string_of(&chars_of("origin")), string_of(&name)),
        }
    } else {
        (String::new(), string_of(&name))
    }
}

/// The remote whose default branch a branch is checked against: its own, or
/// `origin` for a local one.
pub open spec fn trunk_remote_of(remote: Seq<char>) -> Seq<char> {
    if remote.len() == 0 {
        "origin"@
    } else {
        remote
    }
}

pub fn trunk_remote(remote: &str) -> (r: String)
    ensures
        r@ == trunk_remote_of(remote@),
{
    if remote.is_empty() {
        string_of(&chars_of("origin"))
    } else {
        string_of(&chars_of(remote))
    }
}

/// `main`, `master`, or whatever the remote says its default branch is: the
/// branches `d` never deletes, here or on the remote.
pub open spec fn is_trunk_of(branch: Seq<char>, default: Option<Seq<char>>) -> bool {
    branch == "main"@ || branch == "master"@ || default == Some(branch)
}

pub fn is_trunk(branch: &str, default: Option<&str>) -> (b: bool)
    ensures
        b == is_trunk_of(branch@, match default {
            Some(d) => Some(d@),
            None => None,
        }),
{
    let br = chars_of(branch);
    if same(&br, &chars_of("main")) || same(&br, &chars_of("master")) {
        return true;
    }
    match default {
        Some(d) => same(&chars_of(d), &br),
        None => false,
    }
}

/// Whether `d` on this branch has to count what it would lose: a local branch
/// whose upstream is gone, that has none, or that is ahead of it.
pub open spec fn finished_or_own(b: Branch) -> bool {
    contains(b.track@, "gone"@) || !b.has_upstream || contains(b.track@, "ahead"@)
}

pub fn needs_count(b: &Branch) -> (r: bool)
    ensures
        r == finished_or_own(*b),
{
    let t = chars_of(b.track.as_str());
    contains_in(&t, &chars_of("gone")) || !b.has_upstream || contains_in(&t, &chars_of("ahead"))
}

/// The remote a local branch's upstream lives on: what comes before the first
/// `/` of it, or `origin`.
pub open spec fn upstream_remote_of(upstream: Seq<char>) -> Seq<char> {
    match split_once(upstream, seq!['/']) {
        Some((r, _)) => r,
        None => "origin"@,
    }
}

pub fn upstream_remote(upstream: &str) -> (r: String)
    ensures
        r@ == upstream_remote_of(upstream@),
{
    let slash = ['/'];
    assert(slash@ =~= seq!['/']);
    match split_once_in(&chars_of(upstream), &slash) {
        Some((r, _)) => string_of(&r),
        None => string_of(&chars_of("origin")),
    }
}

/// A refused delete: the box's title and body.
pub type Refusal = (String, String);

/// What `d` on a branch comes to. `trunk` says whether it is `main`,
/// `master` or the remote's default; for a branch that has to be counted,
/// `lost` is how many commits no remote has, `main_line` the remote's main
/// line as this clone has it, and `landed` whether the branch's changes are in
/// it.
pub open spec fn branch_target_ok(
    b: Branch,
    trunk: bool,
    lost: usize,
    main_line: Option<Seq<char>>,
    landed: bool,
    r: Result<Target, Refusal>,
) -> bool {
    let (remote, branch) = branch_parts_of(b.remote, b.name@);
    if trunk {
        r matches Err((title, body)) && title@ == "`"@ + b.name@
            + "` is not something `d` deletes"@ && body@ == if branch == "main"@ || branch
            == "master"@ {
            "You cannot delete main or master from here."@
        } else {
            "You cannot delete the remote's default branch from here."@
        }
    } else if b.remote {
        r matches Ok(Target::RemoteBranch { remote: rr, branch: rb }) && rr@ == remote && rb@
            == branch
    } else if b.is_head {
        r matches Err((title, body)) && title@ == "you are on `"@ + b.name@ + seq!['`'] && body@
            == "git will not delete the branch that is checked out. Switch to another one, then `d` again."@
    } else if finished_or_own(b) {
        r matches Ok(Target::Branch { name, lost: l, landed: ld, trunk: t }) && name@ == b.name@
            && l == lost && ld == (lost > 0 && main_line is Some && landed) && t@ == match main_line {
            Some(m) => match strip_prefix(m, "refs/remotes/"@) {
                Some(s) => s,
                None => m,
            },
            None => Seq::<char>::empty(),
        }
    } else {
        let (ur, ub) = match split_once(b.upstream@, seq!['/']) {
            Some((x, y)) => (x, y),
            None => ("origin"@, b.name@),
        };
        r matches Err((title, body)) && title@ == "`"@ + b.name@ + "` is still on "@ + ur
            && body@ == "Its upstream is alive, so it is not finished. Delete it on the remote first - `d` on `"@
            + ur + seq!['/'] + ub + "` in the remote tab - then `s` to sync, and it shows as gone."@
    }
}

/// The answer to `d` on a branch. A branch whose upstream is gone is finished,
/// and is asked about yes or no; one holding commits found on no remote, or
/// standing on the remote, must have its name typed; any other is refused,
/// with the reason.
pub fn branch_target(
    b: &Branch,
    trunk: bool,
    lost: usize,
    main_line: Option<&str>,
    landed: bool,
) -> (r: Result<Target, Refusal>)
    ensures
        branch_target_ok(
            *b,
            trunk,
            lost,
            match main_line {
                Some(m) => Some(m@),
                None => None,
            },
            landed,
            r,
        ),
{
    proof {
        reveal_strlit("`");
    }
    let tick = ['`'];
    assert(tick@ =~= seq!['`']);
    let name = chars_of(b.name.as_str());
    let (remote, branch) = branch_parts(b);
    if trunk {
        let a = concat(&tick, &name);
        let title = concat(&a, &chars_of("` is not something `d` deletes"));
        assert("`"@ =~= seq!['`']);
        assert(title@ =~= "`"@ + b.name@ + "` is not something `d` deletes"@);
        let br = chars_of(branch.as_str());
        let body = if same(&br, &chars_of("main")) || same(&br, &chars_of("master")) {
            chars_of("You cannot delete main or master from here.")
        } else {
            chars_of("You cannot delete the remote's default branch from here.")
        };
        return Err((string_of(&title), string_of(&body)));
    }
    if b.remote {
        return Ok(Target::RemoteBranch { remote, branch });
    }
    if b.is_head {
        let a = concat(&chars_of("you are on `"), &name);
        let title = concat(&a, &tick);
        let body = chars_of(
            "git will not delete the branch that is checked out. Switch to another one, then `d` again.",
        );
        return Err((string_of(&title), string_of(&body)));
    }
    if needs_count(b) {
        let landed = lost > 0 && main_line.is_some() && landed;
        let trunk_name = match main_line {
            Some(m) => match crate::text::strip_prefix_in(
                &chars_of(m),
                &chars_of("refs/remotes/"),
            ) {
                Some(s) => string_of(&s),
                None => string_of(&chars_of(m)),
            },
            None => String::new(),
        };
        return Ok(Target::Branch { name: string_of(&name), lost, landed, trunk: trunk_name });
    }
    let slash = ['/'];
    assert(slash@ =~= seq!['/']);
    let (ur, ub) = match split_once_in(&chars_of(b.upstream.as_str()), &slash) {
        Some((x, y)) => (x, y),
        None => (chars_of("origin"), slice_vec(&name, 0, name.len())),
    };
    assert(name@.subrange(0, name@.len() as int) =~= name@);
    assert("`"@ =~= seq!['`']);
    let a = concat(&tick, &name);
    let b1 = concat(&a, &chars_of("` is still on "));
    let title = concat(&b1, &ur);
    let c = concat(
        &chars_of(
            "Its upstream is alive, so it is not finished. Delete it on the remote first - `d` on `",
        ),
        &ur,
    );
    let d = concat(&c, &slash);
    let e = concat(&d, &ub);
    let body = concat(&e, &chars_of("` in the remote tab - then `s` to sync, and it shows as gone."));
    Err((string_of(&title), string_of(&body)))
}

/// The remote a tag's delete would reach: the one that answered, or could not
/// be reached, else `origin`.
pub open spec fn tag_remote_name(remote: Option<&RemoteTags>) -> Seq<char> {
    match remote {
        Some(RemoteTags::Answered { remote, .. }) => remote@,
        Some(RemoteTags::Unreachable(remote)) => remote@,
        _ => "origin"@,
    }
}

pub open spec fn tag_target_ok(t: Tag, remote: Option<&RemoteTags>, r: Result<Target, Refusal>) -> bool {
    let rn = tag_remote_name(remote);
    match t.state {
        TagState::Local | TagState::Differs => r matches Ok(Target::Tag { name, differs })
            && name@ == t.name@ && differs == (t.state == TagState::Differs),
        TagState::Pushed | TagState::Remote => r matches Ok(
            Target::RemoteTag { remote: rr, name, here },
        ) && rr@ == rn && name@ == t.name@ && here == (t.state == TagState::Pushed),
        TagState::Unknown => if remote matches Some(RemoteTags::Unreachable(_)) {
            r matches Err((title, body)) && title@ == rn + " could not be reached"@ && body@
                == "There is no telling whether `"@ + t.name@
                + "` exists anywhere else, so deleting it here could lose it. If you are sure: `git tag -d "@
                + t.name@ + seq!['`']
        } else {
            r matches Err((title, body)) && title@ == rn + " has not answered yet"@ && body@
                == "Whether `"@ + t.name@
                + "` is pushed is not known until it does. Try again in a moment."@
        },
    }
}

/// The answer to `d` on a tag. A tag no remote holds in this form is asked
/// about yes or no; one on the remote must have its name typed, since a
/// delete made only here lasts until the next fetch; while the remote has not
/// answered, the delete is refused.
pub fn tag_target(t: &Tag, remote: Option<&RemoteTags>) -> (r: Result<Target, Refusal>)
    ensures
        tag_target_ok(*t, remote, r),
{
    let rn = match remote {
        Some(RemoteTags::Answered { remote, .. }) => chars_of(remote.as_str()),
        Some(RemoteTags::Unreachable(remote)) => chars_of(remote.as_str()),
        _ => chars_of("origin"),
    };
    let name = chars_of(t.name.as_str());
    match t.state {
        TagState::Local | TagState::Differs => Ok(
            Target::Tag { name: string_of(&name), differs: t.state == TagState::Differs },
        ),
        TagState::Pushed | TagState::Remote => Ok(
            Target::RemoteTag {
                remote: string_of(&rn),
                name: string_of(&name),
                here: t.state == TagState::Pushed,
            },
        ),
        TagState::Unknown => {
            let unreachable = match remote {
                Some(RemoteTags::Unreachable(_)) => true,
                _ => false,
            };
            if unreachable {
                let title = concat(&rn, &chars_of(" could not be reached"));
                let a = concat(&chars_of("There is no telling whether `"), &name);
                let b = concat(
                    &a,
                    &chars_of(
                        "` exists anywhere else, so deleting it here could lose it. If you are sure: `git tag -d ",
                    ),
                );
                let c = concat(&b, &name);
                let tick = ['`'];
                assert(tick@ =~= seq!['`']);
                let body = concat(&c, &tick);
                Err((string_of(&title), string_of(&body)))
            } else {
                let title = concat(&rn, &chars_of(" has not answered yet"));
                let a = concat(&chars_of("Whether `"), &name);
                let body = concat(
                    &a,
                    &chars_of("` is pushed is not known until it does. Try again in a moment."),
                );
                Err((string_of(&title), string_of(&body)))
            }
        },
    }
}

/// The row a deleted one leaves the cursor on, as an index into the owning
/// list: the one after it, or the one before when it was last.
pub open spec fn neighbour_of(visible: Seq<usize>, cur: int) -> Option<usize> {
    if 0 <= cur + 1 < visible.len() {
        Some(visible[cur + 1])
    } else if 1 <= cur && cur - 1 < visible.len() {
        Some(visible[cur - 1])
    } else {
        None
    }
}

pub fn neighbour(sel: &Sel) -> (r: Option<usize>)
    ensures
        r == neighbour_of(sel.visible@, sel.cur as int),
{
    let at = sel.cur;
    if at < sel.visible.len() && at + 1 < sel.visible.len() {
        Some(sel.visible[at + 1])
    } else if at >= 1 && at - 1 < sel.visible.len() {
        Some(sel.visible[at - 1])
    } else {
        None
    }
}

/// At most `GIT_WORDS` lines of what git said, for a box.
pub open spec fn git_words_of(out: Seq<char>) -> Seq<char> {
    join(lines(out).take(if lines(out).len() < GIT_WORDS {
        lines(out).len() as int
    } else {
        GIT_WORDS as int
    }), seq!['\n'])
}

pub fn git_words(out: &str) -> (s: String)
    ensures
        s@ == git_words_of(out@),
{
    let ls = lines_in(&chars_of(out));
    let n = if ls.len() < GIT_WORDS {
        ls.len()
    } else {
        GIT_WORDS
    };
    let mut kept: Vec<Vec<char>> = Vec::new();
    let mut k: usize = 0;
    while k < n
        invariant
            k <= n <= ls@.len(),
            seqs(kept@) == seqs(ls@).take(k as int),
        decreases n - k,
    {
        let ghost before = seqs(kept@);
        let w = slice_vec(&ls[k], 0, ls[k].len());
        assert(w@ =~= ls@[k as int]@);
        kept.push(w);
        assert(seqs(kept@) =~= before.push(ls@[k as int]@));
        assert(seqs(ls@).take(k + 1) =~= seqs(ls@).take(k as int).push(seqs(ls@)[k as int]));
        k = k + 1;
    }
    let nl = ['\n'];
    assert(nl@ =~= seq!['\n']);
    string_of(&join_in(&kept, &nl))
}

/// The footer line after `s`/`S` fetched: with `pull`, what fast-forwarding
/// the checked-out branch came to (`Some(n)` commits, `None` when it tracks
/// nothing, or git's words); a failed pull still reports the fetch.
pub open spec fn sync_note_of(pull: bool, pulled: Result<Option<usize>, Seq<char>>) -> (
    bool,
    Seq<char>,
) {
    if !pull {
        (true, "synced"@)
    } else {
        match pulled {
            Ok(Some(n)) => if n == 0 {
                (true, "synced; already up to date"@)
            } else if n == 1 {
                (true, "synced; pulled 1 commit"@)
            } else {
                (true, "synced; pulled "@ + decimal(n as nat) + " commits"@)
            },
            Ok(None) => (true, "synced; this branch tracks nothing to pull"@),
            Err(words) => (
                false,
                "fetched, but not pulled: "@ + crate::git::first_line_of(words),
            ),
        }
    }
}

pub fn sync_note(pull: bool, pulled: &Result<Option<usize>, String>) -> (r: (bool, String))
    ensures
        (r.0, r.1@) == sync_note_of(
            pull,
            match pulled {
                Ok(x) => Ok(*x),
                Err(e) => Err(e@),
            },
        ),
{
    if !pull {
        return (true, string_of(&chars_of("synced")));
    }
    match pulled {
        Ok(Some(n)) => if *n == 0 {
            (true, string_of(&chars_of("synced; already up to date")))
        } else if *n == 1 {
            (true, string_of(&chars_of("synced; pulled 1 commit")))
        } else {
            let a = concat(&chars_of("synced; pulled "), &decimal_of(*n as u64));
            (true, string_of(&concat(&a, &chars_of(" commits"))))
        },
        Ok(None) => (true, string_of(&chars_of("synced; this branch tracks nothing to pull"))),
        Err(words) => {
            let first = crate::git::first_line(words.as_str());
            let a = concat(&chars_of("fetched, but not pulled: "), &chars_of(first.as_str()));
            (false, string_of(&a))
        },
    }
}

/// `deleted <name> (was <first seven characters of its hash>)`.
pub fn deleted_note(name: &str, sha: &str) -> (s: String)
    ensures
        s@ == "deleted "@ + name@ + " (was "@ + sha@.take(if sha@.len() < 7 {
            sha@.len() as int
        } else {
            7
        }) + seq![')'],
{
    let h = chars_of(sha);
    let n = if h.len() < 7 {
        h.len()
    } else {
        7
    };
    let short = slice_vec(&h, 0, n);
    let a = concat(&chars_of("deleted "), &chars_of(name));
    let b = concat(&a, &chars_of(" (was "));
    let c = concat(&b, &short);
    let close = [')'];
    assert(close@ =~= seq![')']);
    string_of(&concat(&c, &close))
}

/// A tag the remote holds is deleted on the remote, never only here, where the
/// next fetch would bring it back: the answer for a pushed tag (or one only on
/// the remote) is a remote delete of that very tag, on the remote that
/// answered, and here too exactly when the tag is here; only a tag no remote
/// has in this form is deleted locally, and always with its own name.
pub proof fn lemma_pushed_tag_goes_on_the_remote(t: Tag, remote: Option<&RemoteTags>, r: Result<Target, Refusal>)
    requires
        tag_target_ok(t, remote, r),
    ensures
        t.state == TagState::Pushed || t.state == TagState::Remote ==> (r matches Ok(
            Target::RemoteTag { remote: rr, name, here },
        ) && name@ == t.name@ && here == (t.state == TagState::Pushed) && (remote matches Some(
            RemoteTags::Answered { remote: answering, .. },
        ) ==> rr@ == answering@)),
        t.state == TagState::Pushed ==> !(r matches Ok(Target::Tag { .. })),
        r matches Ok(Target::Tag { name, .. }) ==> name@ == t.name@ && (t.state == TagState::Local || t.state
            == TagState::Differs),
{
}

} // verus!
