//! The model of the selections of all views into a buffer: an ordered list
//! of (view, selections) pairs, where the first pair of a view is the one
//! that counts.
use vstd::prelude::*;
use crate::selection::Selection;

verus! {

pub type ViewId = usize;

pub type BufferId = usize;

/// The selections of all views, as the buffer's contracts see them.
pub type ViewSels = Seq<(ViewId, Seq<Selection>)>;

/// Position `i` holds the first pair of view `v`.
pub open spec fn is_view_at(vs: ViewSels, v: ViewId, i: int) -> bool {
    &&& 0 <= i < vs.len()
    &&& vs[i].0 == v
    &&& forall|j: int| 0 <= j < i ==> vs[j].0 != v
}

/// View `v` has selections.
pub open spec fn has_view(vs: ViewSels, v: ViewId) -> bool {
    exists|i: int| is_view_at(vs, v, i)
}

/// Where the selections of view `v` are.
pub open spec fn view_pos(vs: ViewSels, v: ViewId) -> int {
    choose|i: int| is_view_at(vs, v, i)
}

/// The selections of view `v`; none when the view has none.
pub open spec fn sels_of(vs: ViewSels, v: ViewId) -> Seq<Selection> {
    if has_view(vs, v) {
        vs[view_pos(vs, v)].1
    } else {
        Seq::empty()
    }
}

/// `vs` with the selections of view `v` set to `s`; a view without
/// selections gets a new pair at the end.
pub open spec fn set_sels(vs: ViewSels, v: ViewId, s: Seq<Selection>) -> ViewSels {
    if has_view(vs, v) {
        vs.update(view_pos(vs, v), (v, s))
    } else {
        vs.push((v, s))
    }
}

/// `vs` where view `v` has a pair, an empty one added at the end if it had
/// none.
pub open spec fn ensure_view(vs: ViewSels, v: ViewId) -> ViewSels {
    if has_view(vs, v) {
        vs
    } else {
        vs.push((v, Seq::empty()))
    }
}

/// Every selection of every view is mapped by `f`.
pub open spec fn map_sels(vs: ViewSels, f: spec_fn(Selection) -> Selection) -> ViewSels {
    vs.map_values(|e: (ViewId, Seq<Selection>)| (e.0, e.1.map_values(f)))
}

/// Every selection of every view lies within a text of `n` chars.
pub open spec fn sels_within(vs: ViewSels, n: int) -> bool {
    forall|i: int, k: int|
        0 <= i < vs.len() && 0 <= k < vs[i].1.len() ==> #[trigger] vs[i].1[k].start <= n
            && vs[i].1[k].end <= n
}

/// A view that occurs in `vs` has a first pair.
pub proof fn lemma_some_view(vs: ViewSels, v: ViewId, j: int)
    requires
        0 <= j < vs.len(),
        vs[j].0 == v,
    ensures
        has_view(vs, v),
    decreases j,
{
    if exists|q: int| 0 <= q < j && vs[q].0 == v {
        let q = choose|q: int| 0 <= q < j && vs[q].0 == v;
        lemma_some_view(vs, v, q);
    } else {
        assert(is_view_at(vs, v, j));
    }
}

pub proof fn lemma_view_at_unique(vs: ViewSels, v: ViewId, i: int, j: int)
    requires
        is_view_at(vs, v, i),
        is_view_at(vs, v, j),
    ensures
        i == j,
{
}

pub proof fn lemma_view_pos(vs: ViewSels, v: ViewId, i: int)
    requires
        is_view_at(vs, v, i),
    ensures
        has_view(vs, v),
        view_pos(vs, v) == i,
        sels_of(vs, v) == vs[i].1,
{
    assert(has_view(vs, v));
    let p = view_pos(vs, v);
    lemma_view_at_unique(vs, v, i, p);
}

/// Mapping the selections keeps where each view is.
pub proof fn lemma_map_sels(vs: ViewSels, f: spec_fn(Selection) -> Selection, v: ViewId)
    ensures
        map_sels(vs, f).len() == vs.len(),
        has_view(map_sels(vs, f), v) == has_view(vs, v),
        has_view(vs, v) ==> view_pos(map_sels(vs, f), v) == view_pos(vs, v),
        sels_of(map_sels(vs, f), v) == sels_of(vs, v).map_values(f),
{
    let ws = map_sels(vs, f);
    if has_view(vs, v) {
        let i = view_pos(vs, v);
        assert(is_view_at(ws, v, i));
        lemma_view_pos(ws, v, i);
    } else {
        if has_view(ws, v) {
            let i = view_pos(ws, v);
            assert forall|j: int| 0 <= j < i implies vs[j].0 != v by {
                assert(ws[j].0 == vs[j].0);
            }
            assert(ws[i].0 == vs[i].0);
            assert(is_view_at(vs, v, i));
        }
        assert(Seq::<Selection>::empty().map_values(f) =~= Seq::<Selection>::empty());
    }
}

/// Setting the selections of a view gives them back.
pub proof fn lemma_set_sels(vs: ViewSels, v: ViewId, s: Seq<Selection>, w: ViewId)
    ensures
        has_view(set_sels(vs, v, s), v),
        sels_of(set_sels(vs, v, s), v) == s,
        w != v ==> has_view(set_sels(vs, v, s), w) == has_view(vs, w),
        w != v ==> sels_of(set_sels(vs, v, s), w) == sels_of(vs, w),
{
    let ws = set_sels(vs, v, s);
    if has_view(vs, v) {
        let i = view_pos(vs, v);
        assert(is_view_at(ws, v, i));
        lemma_view_pos(ws, v, i);
        if w != v {
            if has_view(vs, w) {
                let j = view_pos(vs, w);
                assert(is_view_at(ws, w, j));
                lemma_view_pos(ws, w, j);
            }
            if has_view(ws, w) {
                let j = view_pos(ws, w);
                assert forall|q: int| 0 <= q < j implies vs[q].0 != w by {
                    assert(ws[q].0 != w);
                }
                assert(vs[j].0 == w);
                assert(is_view_at(vs, w, j));
                lemma_view_pos(vs, w, j);
            }
        }
    } else {
        assert forall|j: int| 0 <= j < vs.len() implies ws[j].0 != v by {
            if ws[j].0 == v {
                lemma_some_view(vs, v, j);
            }
        }
        assert(is_view_at(ws, v, vs.len() as int));
        lemma_view_pos(ws, v, vs.len() as int);
        if w != v {
            if has_view(vs, w) {
                let j = view_pos(vs, w);
                assert(is_view_at(ws, w, j));
                lemma_view_pos(ws, w, j);
            }
            if has_view(ws, w) {
                let j = view_pos(ws, w);
                assert forall|q: int| 0 <= q < j implies vs[q].0 != w by {
                    assert(ws[q].0 != w);
                }
                assert(vs[j].0 == w);
                assert(is_view_at(vs, w, j));
                lemma_view_pos(vs, w, j);
            }
        }
    }
}

/// Making sure a view has a pair keeps its selections.
pub proof fn lemma_ensure_view(vs: ViewSels, v: ViewId)
    ensures
        has_view(ensure_view(vs, v), v),
        sels_of(ensure_view(vs, v), v) == sels_of(vs, v),
{
    if !has_view(vs, v) {
        assert(ensure_view(vs, v) == set_sels(vs, v, Seq::<Selection>::empty()));
        lemma_set_sels(vs, v, Seq::<Selection>::empty(), v);
    }
}

/// Setting a view's selections twice is setting them to the second.
pub proof fn lemma_set_sels_twice(vs: ViewSels, v: ViewId, a: Seq<Selection>, b: Seq<Selection>)
    ensures
        set_sels(set_sels(vs, v, a), v, b) == set_sels(vs, v, b),
{
    let ws = set_sels(vs, v, a);
    if has_view(vs, v) {
        let p = view_pos(vs, v);
        assert(is_view_at(ws, v, p));
        lemma_view_pos(ws, v, p);
        assert(set_sels(ws, v, b) =~= set_sels(vs, v, b));
    } else {
        assert forall|j: int| 0 <= j < vs.len() implies ws[j].0 != v by {
            if ws[j].0 == v {
                lemma_some_view(vs, v, j);
            }
        }
        assert(is_view_at(ws, v, vs.len() as int));
        lemma_view_pos(ws, v, vs.len() as int);
        assert(set_sels(ws, v, b) =~= set_sels(vs, v, b));
    }
}

/// Setting a view's selections to the ones it has changes nothing.
pub proof fn lemma_set_sels_same(vs: ViewSels, v: ViewId)
    requires
        has_view(vs, v),
    ensures
        set_sels(vs, v, sels_of(vs, v)) == vs,
{
    let p = view_pos(vs, v);
    assert(set_sels(vs, v, sels_of(vs, v)) =~= vs);
}

} // verus!
