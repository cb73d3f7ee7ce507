use vstd::prelude::*;

use crate::route::{is_resolved, providers, resolve, Resolution, StateBinding};
use crate::router::{all_resolved, bound, entry_resolution, resolved_table, EntryView};

verus! {

/// A tree resolves exactly when every route that reads state finds exactly
/// one provider of that state among the bindings of its enclosing scopes;
/// the resolved table then hands each such route that one binding, which is
/// among its scopes' bindings and is the only one there of the required type.
/// A route with no provider or with several is never given one of them.
pub proof fn lemma_resolution_is_unique(s: Seq<EntryView>)
    ensures
        all_resolved(s) <==> forall|i: int|
            0 <= i < s.len() && #[trigger] s[i].route.needs is Some ==> providers(
                s[i].bindings,
                s[i].route.needs->Some_0,
            ).len() == 1,
        forall|i: int|
            0 <= i < s.len() && #[trigger] s[i].route.needs is Some && providers(
                s[i].bindings,
                s[i].route.needs->Some_0,
            ).len() != 1 ==> !(entry_resolution(s[i]) is Bound),
        all_resolved(s) ==> forall|i: int, k: int|
            0 <= i < s.len() && #[trigger] s[i].route.needs is Some && 0 <= k < s[i].bindings.len()
                && #[trigger] s[i].bindings[k].tag == s[i].route.needs->Some_0 ==> {
                let st = resolved_table(s)[i].state;
                &&& st is Some
                &&& st->Some_0.tag == s[i].route.needs->Some_0
                &&& s[i].bindings.contains(st->Some_0)
                &&& s[i].bindings[k] == st->Some_0
            },
{
    if all_resolved(s) {
        assert forall|i: int| 0 <= i < s.len() && #[trigger] s[i].route.needs is Some implies providers(
            s[i].bindings,
            s[i].route.needs->Some_0,
        ).len() == 1 by {
            assert(is_resolved(entry_resolution(s[i])));
        }
    }
    if forall|i: int|
        0 <= i < s.len() && #[trigger] s[i].route.needs is Some ==> providers(
            s[i].bindings,
            s[i].route.needs->Some_0,
        ).len() == 1 {
        assert forall|i: int| 0 <= i < s.len() implies is_resolved(#[trigger] entry_resolution(s[i])) by {
            if s[i].route.needs is Some {
                assert(providers(s[i].bindings, s[i].route.needs->Some_0).len() == 1);
            }
        }
    }
    assert forall|i: int, k: int|
        all_resolved(s) && 0 <= i < s.len() && #[trigger] s[i].route.needs is Some && 0 <= k
            < s[i].bindings.len() && #[trigger] s[i].bindings[k].tag == s[i].route.needs->Some_0 implies {
        let st = resolved_table(s)[i].state;
        &&& st is Some
        &&& st->Some_0.tag == s[i].route.needs->Some_0
        &&& s[i].bindings.contains(st->Some_0)
        &&& s[i].bindings[k] == st->Some_0
    } by {
        let tag = s[i].route.needs->Some_0;
        let bs = s[i].bindings;
        let pred = |b: StateBinding| b.tag == tag;
        assert(entry_resolution(s[i]) == resolve(Some(tag), bs));
        assert(providers(bs, tag).len() == 1);
        let p0 = providers(bs, tag)[0];
        bs.lemma_filter_pred(pred, 0);
        assert(bs.filter(pred).contains(p0));
        bs.lemma_filter_contains_rev(pred, p0);
        bs.lemma_filter_contains(pred, k);
        assert(resolved_table(s)[i].state == Some(p0));
    }
}

/// Where a merged tree's current scope is closed with `b`, each route that
/// came from the merged subtree `s` is resolved from its own scopes'
/// bindings followed by `b`, whatever routes the tree held before the merge.
proof fn lemma_subtree_under_parent(p: Seq<EntryView>, s: Seq<EntryView>, b: StateBinding, j: int)
    requires
        0 <= j < s.len(),
    ensures
        bound(p + s, b)[p.len() + j].route == s[j].route,
        entry_resolution(bound(p + s, b)[p.len() + j]) == resolve(s[j].route.needs, s[j].bindings.push(b)),
{
    assert((p + s)[p.len() + j] == s[j]);
}

/// A subtree merged under two parents whose scopes bind different state
/// values yields two independently resolved copies of each of its routes:
/// under each parent, a route's resolution depends on the subtree and that
/// parent's binding alone, and a route whose state the subtree left unbound
/// receives the binding of the parent it was merged under.
pub proof fn lemma_subtree_merged_twice(
    p1: Seq<EntryView>,
    p2: Seq<EntryView>,
    s: Seq<EntryView>,
    b1: StateBinding,
    b2: StateBinding,
)
    ensures
        forall|j: int|
            0 <= j < s.len() ==> {
                let t1 = bound(p1 + s, b1)[p1.len() + j];
                let t2 = bound(p2 + s, b2)[p2.len() + j];
                &&& t1.route == s[j].route
                &&& t2.route == s[j].route
                &&& entry_resolution(t1) == resolve(s[j].route.needs, #[trigger] s[j].bindings.push(b1))
                &&& entry_resolution(t2) == resolve(s[j].route.needs, s[j].bindings.push(b2))
            },
        forall|j: int|
            0 <= j < s.len() && #[trigger] s[j].route.needs == Some(b1.tag) && b1.tag == b2.tag
                && providers(s[j].bindings, b1.tag).len() == 0 ==> {
                &&& resolved_table(bound(p1 + s, b1))[p1.len() + j].state == Some(b1)
                &&& resolved_table(bound(p2 + s, b2))[p2.len() + j].state == Some(b2)
            },
{
    assert forall|j: int| 0 <= j < s.len() implies {
        let t1 = bound(p1 + s, b1)[p1.len() + j];
        let t2 = bound(p2 + s, b2)[p2.len() + j];
        &&& t1.route == s[j].route
        &&& t2.route == s[j].route
        &&& entry_resolution(t1) == resolve(s[j].route.needs, #[trigger] s[j].bindings.push(b1))
        &&& entry_resolution(t2) == resolve(s[j].route.needs, s[j].bindings.push(b2))
    } by {
        lemma_subtree_under_parent(p1, s, b1, j);
        lemma_subtree_under_parent(p2, s, b2, j);
    }
    assert forall|j: int|
        0 <= j < s.len() && #[trigger] s[j].route.needs == Some(b1.tag) && b1.tag == b2.tag
            && providers(s[j].bindings, b1.tag).len() == 0 implies {
        &&& resolved_table(bound(p1 + s, b1))[p1.len() + j].state == Some(b1)
        &&& resolved_table(bound(p2 + s, b2))[p2.len() + j].state == Some(b2)
    } by {
        let tag = b1.tag;
        let pred = |x: StateBinding| x.tag == tag;
        lemma_subtree_under_parent(p1, s, b1, j);
        lemma_subtree_under_parent(p2, s, b2, j);
        s[j].bindings.lemma_filter_push(b1, pred);
        s[j].bindings.lemma_filter_push(b2, pred);
        assert(providers(s[j].bindings.push(b1), tag) == providers(s[j].bindings, tag).push(b1));
        assert(providers(s[j].bindings.push(b2), tag) == providers(s[j].bindings, tag).push(b2));
        assert(resolve(Some(tag), s[j].bindings.push(b1)) == Resolution::Bound(b1));
        assert(resolve(Some(tag), s[j].bindings.push(b2)) == Resolution::Bound(b2));
    }
}

} // verus!
