//! The tags level: one repo's tags marked against its remote, and the commits
//! each one added since the tag before it.

use crate::git::load::{Tag, TagState};
use crate::git::tags::{entry_views, name_index, names_unique, EntryV, RemoteTag, RemoteTags};
use crate::text::{
    chars_of, concat, lemma_name_lt_irreflexive, lemma_name_lt_skip, lemma_name_lt_total,
    lemma_name_lt_transitive, name_lt, name_lt_in, same, string_of,
};
use vstd::prelude::*;

verus! {

/// Which slice of the tags the top pane shows.
#[derive(Clone, Copy, PartialEq, Eq, Debug, Structural)]
pub enum Scope {
    Local,
    Remote,
}

/// How many stops the slider has: the same two tabs `ibranch` opens with, in
/// the same places. No `all`: `local` is already every tag in this clone.
pub const SCOPE_COUNT: usize = 2;

pub const DEFAULT_SCOPE: usize = 0;

pub open spec fn scope_at(i: usize) -> Scope {
    if i == 0 {
        Scope::Local
    } else {
        Scope::Remote
    }
}

impl Scope {
    /// The stop at `i` on the slider.
    pub fn at(i: usize) -> (s: Scope)
        requires
            i < SCOPE_COUNT,
        ensures
            s == scope_at(i),
    {
        if i == 0 {
            Scope::Local
        } else {
            Scope::Remote
        }
    }

    pub fn label(self) -> (s: &'static str)
        ensures
            s@ == match self {
                Scope::Local => "local"@,
                Scope::Remote => "remote"@,
            },
    {
        match self {
            Scope::Local => "local",
            Scope::Remote => "remote",
        }
    }

    /// `local` is the tags in this clone and `remote` the ones on the remote,
    /// as the same tabs mean in `ibranch`; the marks say which are only on one
    /// side.
    pub fn keeps(self, t: &Tag) -> (k: bool)
        ensures
            k == match self {
                Scope::Local => t.state != TagState::Remote,
                Scope::Remote => t.state == TagState::Pushed || t.state == TagState::Remote
                    || t.state == TagState::Differs,
            },
    {
        match self {
            Scope::Local => t.state != TagState::Remote,
            Scope::Remote => match t.state {
                TagState::Pushed | TagState::Remote | TagState::Differs => true,
                _ => false,
            },
        }
    }
}

pub open spec fn state_label(s: TagState) -> Seq<char> {
    match s {
        TagState::Unknown => seq![],
        TagState::Local => "not pushed"@,
        TagState::Pushed => "pushed"@,
        TagState::Differs => "differs"@,
        TagState::Remote => "remote only"@,
    }
}

impl TagState {
    pub fn label(self) -> (s: &'static str)
        ensures
            s@ == state_label(self),
    {
        proof {
            reveal_strlit("");
        }
        match self {
            TagState::Unknown => "",
            TagState::Local => "not pushed",
            TagState::Pushed => "pushed",
            TagState::Differs => "differs",
            TagState::Remote => "remote only",
        }
    }
}

/// What the commits under a tag are counted from.
pub enum Since {
    /// `describe` has not answered yet.
    Asking,
    /// The tag before it on the same line of history.
    Tag(String),
    /// Nothing before it, so the pane holds its whole history.
    Start,
}

/// Which commits a tag's list holds, in words: `new in v0.6.5 since v0.6.4`,
/// or `everything up to v0.1.0` for the oldest tag.
pub fn range_label(tag: &str, since: &Since) -> (s: String)
    ensures
        s@ == match since {
            Since::Asking => "new in "@ + tag@,
            Since::Tag(prev) => "new in "@ + tag@ + " since "@ + prev@,
            Since::Start => "everything up to "@ + tag@,
        },
{
    let t = chars_of(tag);
    let v = match since {
        Since::Asking => concat(&chars_of("new in "), &t),
        Since::Tag(prev) => {
            let a = concat(&chars_of("new in "), &t);
            let b = concat(&a, &chars_of(" since "));
            concat(&b, &chars_of(prev.as_str()))
        },
        Since::Start => concat(&chars_of("everything up to "), &t),
    };
    string_of(&v)
}

/// Everything about a tag a filter can match: its name, where it stands, when
/// it was made and what it says.
pub fn haystack(t: &Tag) -> (s: String)
    ensures
        s@ == t.name@ + seq![' '] + state_label(t.state) + seq![' '] + t.date@ + seq![' ']
            + t.subject@,
{
    let sp = [' '];
    assert(sp@ =~= seq![' ']);
    let mut v = concat(&chars_of(t.name.as_str()), &sp);
    v = concat(&v, &chars_of(t.state.label()));
    v = concat(&v, &sp);
    v = concat(&v, &chars_of(t.date.as_str()));
    v = concat(&v, &sp);
    v = concat(&v, &chars_of(t.subject.as_str()));
    string_of(&v)
}

// ── marking tags against the remote ─────────────────────────────────────────

/// A tag as the contracts see it.
pub struct TagV {
    pub name: Seq<char>,
    pub date: Seq<char>,
    pub annotated: bool,
    pub object: Seq<char>,
    pub commit: Seq<char>,
    pub subject: Seq<char>,
    pub state: TagState,
}

pub open spec fn tag_view(t: Tag) -> TagV {
    TagV {
        name: t.name@,
        date: t.date@,
        annotated: t.annotated,
        object: t.object@,
        commit: t.commit@,
        subject: t.subject@,
        state: t.state,
    }
}

pub open spec fn tag_views(v: Seq<Tag>) -> Seq<TagV> {
    v.map_values(|t: Tag| tag_view(t))
}

/// Where a tag here stands against the remote's entries: not there, there
/// naming the same object, or there naming another.
pub open spec fn mark_of(t: TagV, rt: Seq<EntryV>) -> TagState {
    match name_index(rt, t.name) {
        None => TagState::Local,
        Some(i) => if rt[i].1 == t.object {
            TagState::Pushed
        } else {
            TagState::Differs
        },
    }
}

/// The entries of what the remote said, when it answered.
pub open spec fn answered(remote: Option<&RemoteTags>) -> Option<Seq<EntryV>> {
    match remote {
        Some(RemoteTags::Answered { tags, .. }) => Some(entry_views(tags@)),
        _ => None,
    }
}

/// A tag here after the remote's answer: every one `Local` when there is no
/// remote, each marked against the entries when it answered, and left as it
/// was when it could not be asked or has not answered.
pub open spec fn remarked(t: TagV, remote: Option<&RemoteTags>) -> TagV {
    match remote {
        Some(RemoteTags::NoRemote) => TagV { state: TagState::Local, ..t },
        Some(RemoteTags::Answered { tags, .. }) => TagV {
            state: mark_of(t, entry_views(tags@)),
            ..t
        },
        _ => t,
    }
}

/// The tags that stay: every one but those only the remote had.
pub open spec fn kept_here(tags: Seq<TagV>) -> Seq<TagV> {
    tags.filter(|t: TagV| t.state != TagState::Remote)
}

/// A tag only the remote has, as the list shows it: no date or subject
/// without its objects, annotated when the ref names something other than
/// the commit.
pub open spec fn remote_only_tag(e: EntryV) -> TagV {
    TagV {
        name: e.0,
        date: seq![],
        annotated: e.1 != e.2,
        object: e.1,
        commit: e.2,
        subject: seq![],
        state: TagState::Remote,
    }
}

/// Some tag of `here` is called `name`.
pub open spec fn named_here(here: Seq<TagV>, name: Seq<char>) -> bool {
    exists|i: int| 0 <= i < here.len() && #[trigger] here[i].name == name
}

/// `only` is the list of tags the remote has and `here` does not, one per
/// entry of `rt` whose name is not here, by name with the last first.
pub open spec fn is_remote_only(only: Seq<TagV>, rt: Seq<EntryV>, here: Seq<TagV>) -> bool {
    &&& forall|i: int, j: int| 0 <= i < j < only.len() ==> name_lt(only[j].name, only[i].name)
    &&& forall|i: int|
        #![trigger only[i]]
        0 <= i < only.len() ==> exists|k: int|
            #![trigger rt[k]]
            0 <= k < rt.len() && !named_here(here, rt[k].0) && only[i] == remote_only_tag(rt[k])
    &&& forall|k: int|
        0 <= k < rt.len() && !named_here(here, #[trigger] rt[k].0) ==> exists|i: int|
            0 <= i < only.len() && only[i].name == rt[k].0
}

fn restate(t: Tag, state: TagState) -> (r: Tag)
    ensures
        tag_view(r) == (TagV { state, ..tag_view(t) }),
{
    Tag { state, ..t }
}

fn push_tag(v: &mut Vec<Tag>, t: Tag)
    ensures
        tag_views(final(v)@) == tag_views(old(v)@).push(tag_view(t)),
{
    let ghost before = tag_views(v@);
    let ghost tv = tag_view(t);
    v.push(t);
    assert(tag_views(v@) =~= before.push(tv));
}

/// The state a tag here gets from the remote's entries.
fn mark(t: &Tag, rt: &Vec<(String, RemoteTag)>) -> (s: TagState)
    ensures
        s == mark_of(tag_view(*t), entry_views(rt@)),
{
    let ghost ev = entry_views(rt@);
    let name = chars_of(t.name.as_str());
    let mut i: usize = 0;
    while i < rt.len()
        invariant
            i <= rt@.len(),
            ev == entry_views(rt@),
            name@ == t.name@,
            forall|j: int| 0 <= j < i ==> ev[j].0 != name@,
        decreases rt@.len() - i,
    {
        if same(&chars_of(rt[i].0.as_str()), &name) {
            assert(crate::git::tags::is_name_at(ev, name@, i as int));
            assert(name_index(ev, name@) == Some(i as int)) by {
                let k = choose|k: int| crate::git::tags::is_name_at(ev, name@, k);
                if k < i {
                } else if k > i {
                }
            }
            if rt[i].1.object == t.object {
                return TagState::Pushed;
            } else {
                return TagState::Differs;
            }
        }
        i = i + 1;
    }
    assert(!exists|k: int| crate::git::tags::is_name_at(ev, name@, k));
    TagState::Local
}

/// Whether some tag of `here` is called `name`.
fn is_named_here(here: &Vec<Tag>, name: &String) -> (b: bool)
    ensures
        b == named_here(tag_views(here@), name@),
{
    let ghost hv = tag_views(here@);
    let mut i: usize = 0;
    while i < here.len()
        invariant
            i <= here@.len(),
            hv == tag_views(here@),
            forall|j: int| 0 <= j < i ==> hv[j].name != name@,
        decreases here@.len() - i,
    {
        if here[i].name == *name {
            assert(hv[i as int].name == name@);
            return true;
        }
        i = i + 1;
    }
    false
}

fn remote_tag(name: &String, r: &RemoteTag) -> (t: Tag)
    ensures
        tag_view(t) == remote_only_tag((name@, r.object@, r.commit@)),
{
    let annotated = r.object != r.commit;
    Tag {
        name: name.clone(),
        date: String::new(),
        annotated,
        object: r.object.clone(),
        commit: r.commit.clone(),
        subject: String::new(),
        state: TagState::Remote,
    }
}

/// The remote's entries whose names are not here, as tags, in the remote's
/// order.
pub open spec fn cands_of(rt: Seq<EntryV>, here: Seq<TagV>) -> Seq<TagV> {
    rt.filter(|e: EntryV| !named_here(here, e.0)).map_values(|e: EntryV| remote_only_tag(e))
}

/// `t` put into `s` before the first tag that sorts before it: into a list
/// sorted by name with the last first, where it keeps that order.
pub open spec fn insert_desc(s: Seq<TagV>, t: TagV) -> Seq<TagV>
    decreases s.len(),
{
    if s.len() == 0 {
        seq![t]
    } else if name_lt(s[0].name, t.name) {
        seq![t] + s
    } else {
        seq![s[0]] + insert_desc(s.drop_first(), t)
    }
}

/// `s` sorted by name with the last first, one tag inserted at a time.
pub open spec fn sort_desc(s: Seq<TagV>) -> Seq<TagV>
    decreases s.len(),
{
    if s.len() == 0 {
        seq![]
    } else {
        insert_desc(sort_desc(s.drop_last()), s.last())
    }
}

/// What `mark_tags` leaves: the tags here marked against the remote's answer,
/// then, when it answered, the tags only it has, by name with the last first.
pub open spec fn marked_tags(tags: Seq<TagV>, remote: Option<&RemoteTags>) -> Seq<TagV> {
    let here = kept_here(tags).map_values(|t: TagV| remarked(t, remote));
    match answered(remote) {
        Some(rt) => here + sort_desc(cands_of(rt, here)),
        None => here,
    }
}

proof fn lemma_insert_desc_at(s: Seq<TagV>, t: TagV, p: int)
    requires
        0 <= p <= s.len(),
        forall|j: int| 0 <= j < p ==> !name_lt(s[j].name, t.name),
        p == s.len() || name_lt(s[p].name, t.name),
    ensures
        insert_desc(s, t) == s.insert(p, t),
    decreases s.len(),
{
    if s.len() == 0 {
        assert(s.insert(p, t) =~= seq![t]);
    } else if p == 0 {
        assert(s.insert(0, t) =~= seq![t] + s);
    } else {
        lemma_insert_desc_at(s.drop_first(), t, p - 1);
        assert(s.insert(p, t) =~= seq![s[0]] + s.drop_first().insert(p - 1, t));
    }
}

/// The names of a list sorted by name with the last first.
pub open spec fn sorted_desc(s: Seq<TagV>) -> bool {
    forall|i: int, j: int| 0 <= i < j < s.len() ==> name_lt(s[j].name, s[i].name)
}

proof fn lemma_insert_desc(s: Seq<TagV>, t: TagV)
    requires
        sorted_desc(s),
        forall|j: int| 0 <= j < s.len() ==> s[j].name != t.name,
    ensures
        sorted_desc(insert_desc(s, t)),
        insert_desc(s, t).len() == s.len() + 1,
        forall|x: TagV|
            #![trigger insert_desc(s, t).contains(x)]
            #![trigger s.contains(x)]
            insert_desc(s, t).contains(x) <==> (s.contains(x) || x == t),
    decreases s.len(),
{
    if s.len() == 0 {
        let r = seq![t];
        assert(insert_desc(s, t) =~= r);
        assert forall|x: TagV| r.contains(x) <==> (s.contains(x) || x == t) by {
            if x == t {
                assert(r[0] == x);
            }
        }
    } else if name_lt(s[0].name, t.name) {
        let r = seq![t] + s;
        assert forall|i: int, j: int| 0 <= i < j < r.len() implies name_lt(r[j].name, r[i].name) by {
            if i == 0 && j > 1 {
                lemma_name_lt_transitive(s[j - 1].name, s[0].name, t.name);
            }
        }
        assert forall|x: TagV| r.contains(x) <==> (s.contains(x) || x == t) by {
            if r.contains(x) {
                let i = choose|i: int| 0 <= i < r.len() && r[i] == x;
                if i > 0 {
                    assert(s[i - 1] == x);
                }
            }
            if s.contains(x) {
                let i = choose|i: int| 0 <= i < s.len() && s[i] == x;
                assert(r[i + 1] == x);
            }
            if x == t {
                assert(r[0] == x);
            }
        }
    } else {
        let rest = s.drop_first();
        assert forall|i: int, j: int| 0 <= i < j < rest.len() implies name_lt(rest[j].name, rest[i].name) by {
            assert(rest[i] == s[i + 1] && rest[j] == s[j + 1]);
        }
        lemma_insert_desc(rest, t);
        let tail = insert_desc(rest, t);
        let r = seq![s[0]] + tail;
        lemma_name_lt_total(t.name, s[0].name);
        assert forall|i: int, j: int| 0 <= i < j < r.len() implies name_lt(r[j].name, r[i].name) by {
            assert(r[j] == tail[j - 1]);
            if i == 0 {
                assert(tail.contains(tail[j - 1]));
                if r[j] == t {
                } else {
                    assert(rest.contains(r[j]));
                    let k = choose|k: int| 0 <= k < rest.len() && rest[k] == r[j];
                    assert(s[k + 1] == r[j]);
                }
            } else {
                assert(r[i] == tail[i - 1]);
            }
        }
        assert forall|x: TagV| r.contains(x) <==> (s.contains(x) || x == t) by {
            if r.contains(x) {
                let i = choose|i: int| 0 <= i < r.len() && r[i] == x;
                if i > 0 {
                    assert(r[i] == tail[i - 1]);
                    assert(tail.contains(x));
                    if x != t {
                        assert(rest.contains(x));
                        let k = choose|k: int| 0 <= k < rest.len() && rest[k] == x;
                        assert(s[k + 1] == rest[k]);
                        assert(s.contains(x));
                    }
                } else {
                    assert(s[0] == x);
                    assert(s.contains(x));
                }
            }
            if s.contains(x) {
                let i = choose|i: int| 0 <= i < s.len() && s[i] == x;
                if i == 0 {
                    assert(r[0] == x);
                    assert(r.contains(x));
                } else {
                    assert(rest[i - 1] == x);
                    assert(rest.contains(x));
                    assert(tail.contains(x));
                    let k = choose|k: int| 0 <= k < tail.len() && tail[k] == x;
                    assert(r[k + 1] == x);
                    assert(r.contains(x));
                }
            }
            if x == t {
                assert(tail.contains(x));
                let k = choose|k: int| 0 <= k < tail.len() && tail[k] == x;
                assert(r[k + 1] == x);
                assert(r.contains(x));
            }
        }
    }
}

/// No two tags of `s` share a name.
pub open spec fn distinct_names(s: Seq<TagV>) -> bool {
    forall|i: int, j: int| 0 <= i < j < s.len() ==> s[i].name != s[j].name
}

proof fn lemma_sort_desc(s: Seq<TagV>)
    requires
        distinct_names(s),
    ensures
        sorted_desc(sort_desc(s)),
        sort_desc(s).len() == s.len(),
        forall|x: TagV|
            #![trigger sort_desc(s).contains(x)]
            #![trigger s.contains(x)]
            sort_desc(s).contains(x) <==> s.contains(x),
    decreases s.len(),
{
    if s.len() > 0 {
        let init = s.drop_last();
        assert forall|i: int, j: int| 0 <= i < j < init.len() implies init[i].name != init[j].name by {
            assert(init[i] == s[i] && init[j] == s[j]);
        }
        lemma_sort_desc(init);
        let sorted = sort_desc(init);
        assert forall|j: int| 0 <= j < sorted.len() implies sorted[j].name != s.last().name by {
            assert(sorted.contains(sorted[j]));
            assert(init.contains(sorted[j]));
            let k = choose|k: int| 0 <= k < init.len() && init[k] == sorted[j];
            assert(s[k] == sorted[j]);
            assert(s.last() == s[s.len() - 1]);
        }
        lemma_insert_desc(sorted, s.last());
        assert forall|x: TagV| sort_desc(s).contains(x) <==> s.contains(x) by {
            if s.contains(x) {
                let i = choose|i: int| 0 <= i < s.len() && s[i] == x;
                if i < s.len() - 1 {
                    assert(init[i] == x);
                }
            }
            if init.contains(x) {
                let i = choose|i: int| 0 <= i < init.len() && init[i] == x;
                assert(s[i] == x);
            }
        }
    }
}

proof fn lemma_cands(rt: Seq<EntryV>, here: Seq<TagV>)
    requires
        names_unique(rt),
    ensures
        distinct_names(cands_of(rt, here)),
        forall|x: TagV|
            #![trigger cands_of(rt, here).contains(x)]
            cands_of(rt, here).contains(x) <==> exists|k: int|
                0 <= k < rt.len() && !named_here(here, rt[k].0) && x == remote_only_tag(
                    #[trigger] rt[k],
                ),
    decreases rt.len(),
{
    reveal_with_fuel(Seq::<_>::filter, 1);
    let pred = |e: EntryV| !named_here(here, e.0);
    let f = |e: EntryV| remote_only_tag(e);
    if rt.len() == 0 {
        assert(cands_of(rt, here) =~= Seq::<TagV>::empty());
    } else {
        let init = rt.drop_last();
        assert forall|i: int, j: int| 0 <= i < j < init.len() implies init[i].0 != init[j].0 by {
            assert(init[i] == rt[i] && init[j] == rt[j]);
        }
        lemma_cands(init, here);
        let c0 = cands_of(init, here);
        let e = rt.last();
        if pred(e) {
            assert(rt.filter(pred) =~= init.filter(pred).push(e));
            assert(cands_of(rt, here) =~= c0.push(f(e)));
            assert forall|i: int| 0 <= i < c0.len() implies c0[i].name != e.0 by {
                assert(c0.contains(c0[i]));
                let k = choose|k: int|
                    0 <= k < init.len() && !named_here(here, init[k].0) && c0[i] == remote_only_tag(
                        #[trigger] init[k],
                    );
                assert(init[k] == rt[k]);
            }
        } else {
            assert(rt.filter(pred) =~= init.filter(pred));
            assert(cands_of(rt, here) =~= c0);
        }
        let c = cands_of(rt, here);
        assert forall|x: TagV|
            c.contains(x) <==> exists|k: int|
                0 <= k < rt.len() && !named_here(here, rt[k].0) && x == remote_only_tag(
                    #[trigger] rt[k],
                ) by {
            if c.contains(x) {
                let i = choose|i: int| 0 <= i < c.len() && c[i] == x;
                if i < c0.len() {
                    assert(c0.contains(x));
                    let k = choose|k: int|
                        0 <= k < init.len() && !named_here(here, init[k].0) && x
                            == remote_only_tag(#[trigger] init[k]);
                    assert(rt[k] == init[k]);
                } else {
                    assert(rt[rt.len() - 1] == e);
                }
            }
            if exists|k: int|
                0 <= k < rt.len() && !named_here(here, rt[k].0) && x == remote_only_tag(
                    #[trigger] rt[k],
                ) {
                let k = choose|k: int|
                    0 <= k < rt.len() && !named_here(here, rt[k].0) && x == remote_only_tag(
                        #[trigger] rt[k],
                    );
                if k < rt.len() - 1 {
                    assert(init[k] == rt[k]);
                    assert(c0.contains(x));
                    let i = choose|i: int| 0 <= i < c0.len() && c0[i] == x;
                    assert(c[i] == x);
                } else {
                    assert(c[c.len() - 1] == x);
                }
            }
        }
    }
}

/// What `mark_tags` adds after the tags here is exactly the remote's: one tag
/// for each name it lists that is not here, none twice, each carrying what the
/// remote said of it, in order by name with the last first.
pub proof fn lemma_remote_only_tags(rt: Seq<EntryV>, here: Seq<TagV>)
    requires
        names_unique(rt),
    ensures
        is_remote_only(sort_desc(cands_of(rt, here)), rt, here),
{
    lemma_cands(rt, here);
    let c = cands_of(rt, here);
    lemma_sort_desc(c);
    let only = sort_desc(c);
    assert forall|i: int|
        #![trigger only[i]]
        0 <= i < only.len() implies exists|k: int|
            #![trigger rt[k]]
            0 <= k < rt.len() && !named_here(here, rt[k].0) && only[i] == remote_only_tag(rt[k]) by {
        assert(only.contains(only[i]));
        assert(c.contains(only[i]));
    }
    assert forall|k: int|
        0 <= k < rt.len() && !named_here(here, #[trigger] rt[k].0) implies exists|i: int|
            0 <= i < only.len() && only[i].name == rt[k].0 by {
        let x = remote_only_tag(rt[k]);
        assert(c.contains(x));
        assert(only.contains(x));
        let i = choose|i: int| 0 <= i < only.len() && only[i] == x;
        assert(only[i].name == rt[k].0);
    }
}

/// Insert `t` into `only`, which is sorted by name with the last first,
/// where it keeps that order.
fn insert_sorted(only: &mut Vec<Tag>, t: Tag)
    ensures
        tag_views(final(only)@) == insert_desc(tag_views(old(only)@), tag_view(t)),
{
    let ghost o = tag_views(old(only)@);
    let name = chars_of(t.name.as_str());
    let mut p: usize = 0;
    while p < only.len() && !name_lt_in(&chars_of(only[p].name.as_str()), &name)
        invariant
            p <= only@.len(),
            o == tag_views(only@),
            name@ == t.name@,
            forall|j: int| 0 <= j < p ==> !name_lt(o[j].name, t.name@),
        decreases only@.len() - p,
    {
        p = p + 1;
    }
    proof {
        lemma_insert_desc_at(o, tag_view(t), p as int);
    }
    let ghost tv = tag_view(t);
    only.insert(p, t);
    assert(tag_views(only@) =~= o.insert(p as int, tv));
}

/// The tags that stay, each marked against what the remote said.
fn remark_here(tags: Vec<Tag>, remote: Option<&RemoteTags>) -> (r: Vec<Tag>)
    ensures
        tag_views(r@) == kept_here(tag_views(tags@)).map_values(|t: TagV| remarked(t, remote)),
{
    let ghost orig = tags@;
    let ghost tv = tag_views(orig);
    let ghost pred = |t: TagV| t.state != TagState::Remote;
    let ghost f = |t: TagV| remarked(t, remote);
    let mut here: Vec<Tag> = Vec::new();
    assert(tv.take(0).filter(pred).map_values(f) =~= tag_views(here@));
    for t in it: tags.into_iter()
        invariant
            it.seq() == orig,
            tv == tag_views(orig),
            pred == (|t: TagV| t.state != TagState::Remote),
            f == (|t: TagV| remarked(t, remote)),
            tag_views(here@) == tv.take(it.index() as int).filter(pred).map_values(f),
    {
        reveal_with_fuel(Seq::<_>::filter, 1);
        let ghost k = it.index() as int;
        assert(tv.take(k + 1).drop_last() =~= tv.take(k));
        assert(tv.take(k + 1).last() == tag_view(t));
        let ghost before = tag_views(here@);
        if t.state != TagState::Remote {
            let s = match remote {
                Some(RemoteTags::NoRemote) => TagState::Local,
                Some(RemoteTags::Answered { tags: rt, .. }) => mark(&t, rt),
                _ => t.state,
            };
            let u = restate(t, s);
            assert(tag_view(u) == f(tv[k]));
            push_tag(&mut here, u);
            assert(tv.take(k + 1).filter(pred) =~= tv.take(k).filter(pred).push(tv[k]));
            assert(tag_views(here@) =~= tv.take(k + 1).filter(pred).map_values(f));
        } else {
            assert(tv.take(k + 1).filter(pred) =~= tv.take(k).filter(pred));
        }
    }
    assert(tv.take(orig.len() as int) =~= tv);
    here
}

/// The remote's entries whose names are not here, as tags, in the remote's
/// order.
fn remote_only(rt: &Vec<(String, RemoteTag)>, here: &Vec<Tag>) -> (r: Vec<Tag>)
    ensures
        tag_views(r@) == cands_of(entry_views(rt@), tag_views(here@)),
{
    let ghost rv = entry_views(rt@);
    let ghost hv = tag_views(here@);
    let ghost pred = |e: EntryV| !named_here(hv, e.0);
    let ghost f = |e: EntryV| remote_only_tag(e);
    let mut out: Vec<Tag> = Vec::new();
    let mut k: usize = 0;
    assert(rv.take(0).filter(pred).map_values(f) =~= tag_views(out@));
    while k < rt.len()
        invariant
            k <= rt@.len(),
            rv == entry_views(rt@),
            hv == tag_views(here@),
            pred == (|e: EntryV| !named_here(hv, e.0)),
            f == (|e: EntryV| remote_only_tag(e)),
            tag_views(out@) == rv.take(k as int).filter(pred).map_values(f),
        decreases rt@.len() - k,
    {
        reveal_with_fuel(Seq::<_>::filter, 1);
        assert(rv.take(k + 1).drop_last() =~= rv.take(k as int));
        assert(rv.take(k + 1).last() == rv[k as int]);
        assert(rv[k as int] == (rt@[k as int].0@, rt@[k as int].1.object@, rt@[k as int].1.commit@));
        if !is_named_here(here, &rt[k].0) {
            let t = remote_tag(&rt[k].0, &rt[k].1);
            push_tag(&mut out, t);
            assert(rv.take(k + 1).filter(pred) =~= rv.take(k as int).filter(pred).push(rv[k as int]));
            assert(tag_views(out@) =~= rv.take(k + 1).filter(pred).map_values(f));
        } else {
            assert(rv.take(k + 1).filter(pred) =~= rv.take(k as int).filter(pred));
        }
        k = k + 1;
    }
    assert(rv.take(rt@.len() as int) =~= rv);
    out
}

/// The tags only the remote has, sorted by name with the last first: without
/// their objects there is no date to sort them by.
fn sort_by_name(cands: Vec<Tag>) -> (r: Vec<Tag>)
    ensures
        tag_views(r@) == sort_desc(tag_views(cands@)),
{
    let ghost orig = cands@;
    let ghost cv = tag_views(orig);
    let mut only: Vec<Tag> = Vec::new();
    assert(tag_views(only@) =~= sort_desc(cv.take(0)));
    for c in it: cands.into_iter()
        invariant
            it.seq() == orig,
            cv == tag_views(orig),
            tag_views(only@) == sort_desc(cv.take(it.index() as int)),
    {
        let ghost m = it.index() as int;
        assert(cv.take(m + 1).drop_last() =~= cv.take(m));
        assert(cv.take(m + 1).last() == tag_view(c));
        insert_sorted(&mut only, c);
    }
    assert(cv.take(orig.len() as int) =~= cv);
    only
}

/// Mark every tag here against what the remote said and add the ones only the
/// remote has, after the others and by name with the last first (without their
/// objects there is no date to sort them by). With no remote at all nothing is
/// pushed, which is what lets `d` treat those tags like any other that exists
/// only here. Tags only the remote had the last time it was asked are dropped
/// first, since it may have answered otherwise.
pub fn mark_tags(tags: Vec<Tag>, remote: Option<&RemoteTags>) -> (r: Vec<Tag>)
    ensures
        tag_views(r@) == marked_tags(tag_views(tags@), remote),
{
    let ghost hv = kept_here(tag_views(tags@)).map_values(|t: TagV| remarked(t, remote));
    let mut here = remark_here(tags, remote);
    match remote {
        Some(RemoteTags::Answered { tags: rt, .. }) => {
            let cands = remote_only(rt, &here);
            let mut only = sort_by_name(cands);
            let ghost a = tag_views(here@);
            let ghost b = tag_views(only@);
            here.append(&mut only);
            assert(tag_views(here@) =~= a + b);
        },
        _ => {},
    }
    here
}

impl crate::app::rows::Listed for Tag {
    type Scope = Scope;

    open spec fn key_of(&self) -> Seq<char> {
        self.name@
    }

    fn key(&self) -> (s: &str) {
        self.name.as_str()
    }

    open spec fn hay_of(&self) -> Seq<char> {
        self.name@ + seq![' '] + state_label(self.state) + seq![' '] + self.date@ + seq![' ']
            + self.subject@
    }

    fn hay(&self) -> (s: String) {
        haystack(self)
    }

    open spec fn in_scope(&self, s: Scope, unpushed: Seq<Seq<char>>) -> bool {
        match s {
            Scope::Local => self.state != TagState::Remote,
            Scope::Remote => self.state == TagState::Pushed || self.state == TagState::Remote
                || self.state == TagState::Differs,
        }
    }

    fn keeps_in(&self, s: Scope, unpushed: &Vec<String>) -> (b: bool) {
        s.keeps(self)
    }
}

} // verus!
