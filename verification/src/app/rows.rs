//! Which rows of a list a pane shows: those its scope and its `/` filter keep,
//! in the list's order, and where a refresh finds again the row it was
//! standing on. The same for every list the drill holds.

use crate::text::string_views;
use crate::tui::widgets::{query_keeps, Query};
use vstd::prelude::*;

verus! {

/// The one tab of a list with no scope slider: it keeps every row.
#[derive(Clone, Copy, PartialEq, Eq, Debug, Structural)]
pub enum AllRows {
    All,
}

/// A row of one of the drill's lists.
pub trait Listed {
    /// The tabs of the list's scope slider.
    type Scope: Copy;

    /// What a refresh finds the row again by: a repo's path, a branch's or a
    /// tag's name, a commit's hash, a file's path.
    spec fn key_of(&self) -> Seq<char>;

    fn key(&self) -> (s: &str)
        ensures
            s@ == self.key_of(),
    ;

    /// Everything about the row a filter can match.
    spec fn hay_of(&self) -> Seq<char>;

    fn hay(&self) -> (s: String)
        ensures
            s@ == self.hay_of(),
    ;

    /// Whether the scope `s` keeps the row; `unpushed` is the hashes on no
    /// remote, which only the commits' scopes read.
    spec fn in_scope(&self, s: Self::Scope, unpushed: Seq<Seq<char>>) -> bool;

    fn keeps_in(&self, s: Self::Scope, unpushed: &Vec<String>) -> (b: bool)
        ensures
            b == self.in_scope(s, string_views(unpushed@)),
    ;
}

/// The rows `from..to` of `v` that the scope and the filter `q` keep, in
/// order, by their index in `v`.
pub open spec fn kept<T: Listed>(
    v: Seq<T>,
    from: int,
    to: int,
    s: T::Scope,
    unpushed: Seq<Seq<char>>,
    q: Seq<char>,
) -> Seq<usize>
    decreases to - from,
{
    if to <= from {
        seq![]
    } else {
        let rest = kept(v, from, to - 1, s, unpushed, q);
        if v[to - 1].in_scope(s, unpushed) && query_keeps(q, v[to - 1].hay_of()) {
            rest.push((to - 1) as usize)
        } else {
            rest
        }
    }
}

/// The rows from `from` on that a pane shows: those the scope `s` and the
/// filter `q` keep, in the list's order. A pane filled in the background asks
/// for the rows just arrived; a rescope asks from the top.
pub fn kept_rows<T: Listed>(items: &Vec<T>, from: usize, s: T::Scope, unpushed: &Vec<String>, q: &Query) -> (r:
    Vec<usize>)
    ensures
        r@ == kept(items@, from as int, items@.len() as int, s, string_views(unpushed@), q.text@),
{
    let ghost u = string_views(unpushed@);
    let mut r: Vec<usize> = Vec::new();
    if from >= items.len() {
        return r;
    }
    let mut k: usize = from;
    while k < items.len()
        invariant
            from <= k <= items@.len(),
            u == string_views(unpushed@),
            r@ == kept(items@, from as int, k as int, s, u, q.text@),
        decreases items@.len() - k,
    {
        let hay = items[k].hay();
        if items[k].keeps_in(s, unpushed) && q.keeps(hay.as_str()) {
            r.push(k);
        }
        k = k + 1;
    }
    r
}

/// `p` is the first place in `visible` whose row has the key `want`.
pub open spec fn first_row<T: Listed>(items: Seq<T>, visible: Seq<usize>, want: Seq<char>, p: int) -> bool {
    &&& 0 <= p < visible.len()
    &&& visible[p] < items.len()
    &&& items[visible[p] as int].key_of() == want
    &&& forall|j: int|
        0 <= j < p && visible[j] < items.len() ==> items[#[trigger] visible[j] as int].key_of() != want
}

/// Where among the rows a pane shows the one with the key `want` stands: the
/// first such place, or none when no row shown has that key.
pub fn row_of<T: Listed>(items: &Vec<T>, visible: &Vec<usize>, want: &str) -> (r: Option<usize>)
    ensures
        match r {
            Some(p) => first_row(items@, visible@, want@, p as int),
            None => forall|j: int|
                0 <= j < visible@.len() && visible@[j] < items@.len() ==> items@[#[trigger] visible@[j] as int].key_of()
                    != want@,
        },
{
    let w = crate::text::chars_of(want);
    let mut p: usize = 0;
    while p < visible.len()
        invariant
            p <= visible@.len(),
            w@ == want@,
            forall|j: int|
                0 <= j < p && visible@[j] < items@.len() ==> items@[#[trigger] visible@[j] as int].key_of() != want@,
        decreases visible@.len() - p,
    {
        let i = visible[p];
        if i < items.len() && crate::text::same(&crate::text::chars_of(items[i].key()), &w) {
            return Some(p);
        }
        p = p + 1;
    }
    None
}

} // verus!
