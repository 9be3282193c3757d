//! Lists of dependents and of bindings: membership, adding, removing.

use vstd::prelude::*;
use crate::pointer::{DynamicProperty, Pointer};

verus! {

/// `deps` with `d` among its elements: unchanged where `d` is already
/// listed, so that adding never creates a duplicate.
pub open spec fn linked(deps: Seq<Pointer>, d: Pointer) -> Seq<Pointer> {
    if deps.contains(d) {
        deps
    } else {
        deps.push(d)
    }
}

/// The test a pointer passes when it is not `d`.
pub open spec fn other_than(d: Pointer) -> spec_fn(Pointer) -> bool {
    |x: Pointer| x != d
}

/// The test a binding passes when it does not carry `id`.
pub open spec fn without_id(id: u64) -> spec_fn(DynamicProperty) -> bool {
    |b: DynamicProperty| b.id != id
}

/// `deps` without any occurrence of `d`, the rest in its order.
pub open spec fn unlinked(deps: Seq<Pointer>, d: Pointer) -> Seq<Pointer> {
    deps.filter(other_than(d))
}

/// `props` without the bindings that carry `id`, the rest in its order.
pub open spec fn detached(props: Seq<DynamicProperty>, id: u64) -> Seq<DynamicProperty> {
    props.filter(without_id(id))
}

/// What `unlinked` keeps: exactly the elements other than `d`.
pub proof fn lemma_unlinked_contains(deps: Seq<Pointer>, d: Pointer, x: Pointer)
    ensures
        unlinked(deps, d).contains(x) <==> deps.contains(x) && x != d,
{
    let pred = other_than(d);
    if unlinked(deps, d).contains(x) {
        deps.lemma_filter_contains_rev(pred, x);
        let f = deps.filter(pred);
        let i = choose|i: int| 0 <= i < f.len() && f[i] == x;
        deps.lemma_filter_pred(pred, i);
    }
    if deps.contains(x) && x != d {
        let i = choose|i: int| 0 <= i < deps.len() && deps[i] == x;
        deps.lemma_filter_contains(pred, i);
    }
}

/// What `linked` holds: the elements of `deps`, and `d`.
pub proof fn lemma_linked_contains(deps: Seq<Pointer>, d: Pointer, x: Pointer)
    ensures
        linked(deps, d).contains(x) <==> deps.contains(x) || x == d,
{
    if !deps.contains(d) {
        let g = deps.push(d);
        assert(g[g.len() - 1] == d);
        if deps.contains(x) {
            let i = choose|i: int| 0 <= i < deps.len() && deps[i] == x;
            assert(g[i] == x);
        }
        if g.contains(x) && x != d {
            let i = choose|i: int| 0 <= i < g.len() && g[i] == x;
            assert(deps[i] == x);
        }
    }
}

/// Removing a pointer from a list without duplicates leaves a list without
/// duplicates.
pub proof fn lemma_unlinked_no_duplicates(deps: Seq<Pointer>, d: Pointer)
    requires
        deps.no_duplicates(),
    ensures
        unlinked(deps, d).no_duplicates(),
    decreases deps.len(),
{
    reveal(Seq::filter);
    if deps.len() > 0 {
        let rest = deps.drop_last();
        let last = deps.last();
        lemma_unlinked_no_duplicates(rest, d);
        lemma_unlinked_contains(rest, d, last);
        if rest.contains(last) {
            let i = choose|i: int| 0 <= i < rest.len() && rest[i] == last;
            assert(deps[i] == deps[deps.len() - 1]);
        }
        if last != d {
            let f = unlinked(rest, d);
            let g = f.push(last);
            assert(unlinked(deps, d) == g);
            assert forall|i: int, j: int| 0 <= i < g.len() && 0 <= j < g.len() && i != j implies g[i]
                != g[j] by {
                if i < f.len() && j < f.len() {
                } else if i < f.len() {
                    assert(f.contains(f[i]));
                } else {
                    assert(f.contains(f[j]));
                }
            }
        }
    }
}

/// Adding a pointer to a list without duplicates leaves a list without
/// duplicates.
pub proof fn lemma_linked_no_duplicates(deps: Seq<Pointer>, d: Pointer)
    requires
        deps.no_duplicates(),
    ensures
        linked(deps, d).no_duplicates(),
{
    if !deps.contains(d) {
        let g = deps.push(d);
        assert forall|i: int, j: int| 0 <= i < g.len() && 0 <= j < g.len() && i != j implies g[i]
            != g[j] by {
            if i < deps.len() && j < deps.len() {
            } else if i < deps.len() {
                assert(deps.contains(deps[i]));
            } else {
                assert(deps.contains(deps[j]));
            }
        }
    }
}

/// Whether `p` occurs in `list`.
pub fn list_contains(list: &Vec<Pointer>, p: Pointer) -> (r: bool)
    ensures
        r == list@.contains(p),
{
    let mut k: usize = 0;
    while k < list.len()
        invariant
            k <= list.len(),
            forall|j: int| 0 <= j < k ==> list@[j] != p,
        decreases list.len() - k,
    {
        if list[k] == p {
            return true;
        }
        k += 1;
    }
    false
}

/// Adds `d` to `list` unless it is already there.
pub fn link(list: &mut Vec<Pointer>, d: Pointer)
    ensures
        final(list)@ == linked(old(list)@, d),
{
    if !list_contains(list, d) {
        list.push(d);
    }
}

/// Removes every occurrence of `d` from `list`.
pub fn unlink(list: &mut Vec<Pointer>, d: Pointer)
    ensures
        final(list)@ == unlinked(old(list)@, d),
{
    let ghost pred = other_than(d);
    let mut kept: Vec<Pointer> = Vec::new();
    let mut k: usize = 0;
    proof {
        reveal(Seq::filter);
        assert(list@.take(0) =~= Seq::empty());
    }
    while k < list.len()
        invariant
            k <= list.len(),
            pred == other_than(d),
            kept@ == list@.take(k as int).filter(pred),
        decreases list.len() - k,
    {
        let x = list[k];
        proof {
            assert(list@.take(k + 1) =~= list@.take(k as int).push(x));
            list@.take(k as int).lemma_filter_push(x, pred);
        }
        if x != d {
            kept.push(x);
        }
        k += 1;
    }
    assert(list@.take(k as int) =~= list@);
    *list = kept;
}

/// Removes from `list` every binding that carries `id`.
pub fn detach(list: &mut Vec<DynamicProperty>, id: u64)
    ensures
        final(list)@ == detached(old(list)@, id),
{
    let ghost pred = without_id(id);
    let mut kept: Vec<DynamicProperty> = Vec::new();
    let mut k: usize = 0;
    proof {
        reveal(Seq::filter);
        assert(list@.take(0) =~= Seq::empty());
    }
    while k < list.len()
        invariant
            k <= list.len(),
            pred == without_id(id),
            kept@ == list@.take(k as int).filter(pred),
        decreases list.len() - k,
    {
        let x = list[k];
        proof {
            assert(list@.take(k + 1) =~= list@.take(k as int).push(x));
            list@.take(k as int).lemma_filter_push(x, pred);
        }
        if x.id != id {
            kept.push(x);
        }
        k += 1;
    }
    assert(list@.take(k as int) =~= list@);
    *list = kept;
}

} // verus!
