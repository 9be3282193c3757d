//! The dependency edges as a graph: what it means for them to be sound, and
//! that the operations of the store keep them so.

use vstd::prelude::*;
use crate::edges::{
    lemma_linked_no_duplicates,
    lemma_unlinked_contains,
    lemma_unlinked_no_duplicates,
    linked,
    unlinked,
};
use crate::entry::EntryView;
use crate::heap::{Heap, HeapView};
use crate::pass::{PassView, ReportView};
use crate::pass_laws::{lemma_accepted_reads, lemma_kept};
use crate::pointer::{ClosurePointer, DynamicProperty, Pointer};
use crate::propagate::{pass_of, replay, round, written, Evaluation};
use crate::value::HeapValue;

verus! {

impl<T> HeapView<T> {
    /// Whether `deps` is a sound list of dependents for `p`: every element
    /// resolves to a formula, none is `p` itself, none occurs twice.
    pub open spec fn list_ok(self, p: Pointer, deps: Seq<Pointer>) -> bool {
        &&& deps.no_duplicates()
        &&& forall|k: int|
            0 <= k < deps.len() ==> (#[trigger] deps[k]) != p && self.is_formula(deps[k])
    }

    /// Whether every edge of the heap is sound: no entry depends on itself,
    /// no edge is recorded twice, and no edge leads to a slot that is gone or
    /// to a plain slot.
    pub open spec fn edges_ok(self) -> bool {
        forall|p: Pointer| self.contains(p) ==> self.list_ok(p, (#[trigger] self.entry(p)).dependents)
    }
}

/// Sound lists stay sound when a formula other than the owner is added.
pub proof fn lemma_linked_ok<T>(h: HeapView<T>, p: Pointer, deps: Seq<Pointer>, d: Pointer)
    requires
        h.list_ok(p, deps),
        d != p,
        h.is_formula(d),
    ensures
        h.list_ok(p, linked(deps, d)),
{
    lemma_linked_no_duplicates(deps, d);
    let g = linked(deps, d);
    assert forall|k: int| 0 <= k < g.len() implies (#[trigger] g[k]) != p && h.is_formula(g[k]) by {
        if k < deps.len() {
            assert(g[k] == deps[k]);
        }
    }
}

/// Sound lists stay sound when a pointer is removed.
pub proof fn lemma_unlinked_ok<T>(h: HeapView<T>, p: Pointer, deps: Seq<Pointer>, d: Pointer)
    requires
        h.list_ok(p, deps),
    ensures
        h.list_ok(p, unlinked(deps, d)),
{
    lemma_unlinked_no_duplicates(deps, d);
    let g = unlinked(deps, d);
    assert forall|k: int| 0 <= k < g.len() implies (#[trigger] g[k]) != p && h.is_formula(g[k]) by {
        assert(g.contains(g[k]));
        lemma_unlinked_contains(deps, d, g[k]);
        let i = choose|i: int| 0 <= i < deps.len() && deps[i] == g[k];
        assert(deps[i] != p && h.is_formula(deps[i]));
    }
}

/// A list that is sound in one heap is sound in every heap with the same
/// formulas.
proof fn lemma_list_ok_carries<T>(a: HeapView<T>, b: HeapView<T>, p: Pointer, deps: Seq<Pointer>)
    requires
        a.list_ok(p, deps),
        forall|x: Pointer| a.is_formula(x) ==> b.is_formula(x),
    ensures
        b.list_ok(p, deps),
{
    assert forall|k: int| 0 <= k < deps.len() implies (#[trigger] deps[k]) != p && b.is_formula(
        deps[k],
    ) by {
        assert(a.is_formula(deps[k]));
    }
}

/// Allocating keeps the edges sound: the new entry has none.
pub proof fn lemma_allocated_edges_ok<T>(h: HeapView<T>, value: HeapValue<T>)
    requires
        h.wf(),
        h.has_room(),
        h.edges_ok(),
    ensures
        h.allocated(EntryView::fresh(value)).edges_ok(),
{
    let e = EntryView::fresh(value);
    let a = h.allocated(e);
    crate::arena_laws::lemma_allocated(h, e);
    assert forall|p: Pointer| a.contains(p) implies a.list_ok(
        p,
        (#[trigger] a.entry(p)).dependents,
    ) by {
        if p != h.next_pointer() {
            assert(h.contains(p));
            assert(h.list_ok(p, h.entry(p).dependents));
            assert forall|x: Pointer| h.is_formula(x) implies a.is_formula(x) by {
                assert(a.contains(x));
            }
            lemma_list_ok_carries(h, a, p, h.entry(p).dependents);
        }
    }
}

/// Freeing keeps the edges sound: a slot that an edge leads to is never
/// freed.
pub proof fn lemma_freed_edges_ok<T>(h: HeapView<T>, p: Pointer)
    requires
        h.wf(),
        h.edges_ok(),
        h.free_outcome(p) is Ok,
    ensures
        h.freed(p).edges_ok(),
{
    let f = h.freed(p);
    crate::arena_laws::lemma_freed(h, p);
    assert forall|q: Pointer| f.contains(q) implies f.list_ok(
        q,
        (#[trigger] f.entry(q)).dependents,
    ) by {
        assert(q != p);
        assert(h.contains(q));
        let deps = h.entry(q).dependents;
        assert(h.list_ok(q, deps));
        assert forall|k: int| 0 <= k < deps.len() implies (#[trigger] deps[k]) != q
            && f.is_formula(deps[k]) by {
            assert(h.is_formula(deps[k]));
            if deps[k] == p {
                assert(deps.contains(p));
                assert(h.lists(q.index as int, p));
                assert(h.referenced(p));
            }
        }
    }
}

/// Replacing the dependents of one slot by a sound list keeps the edges
/// sound.
pub proof fn lemma_with_dependents_edges_ok<T>(h: HeapView<T>, p: Pointer, deps: Seq<Pointer>)
    requires
        h.edges_ok(),
        h.contains(p),
        h.list_ok(p, deps),
    ensures
        h.with_dependents(p, deps).edges_ok(),
{
    let a = h.with_dependents(p, deps);
    assert forall|x: Pointer| h.is_formula(x) implies a.is_formula(x) by {}
    assert forall|q: Pointer| a.contains(q) implies a.list_ok(
        q,
        (#[trigger] a.entry(q)).dependents,
    ) by {
        assert(h.contains(q));
        if q.index == p.index {
            assert(q == p);
            lemma_list_ok_carries(h, a, p, deps);
        } else {
            assert(h.list_ok(q, h.entry(q).dependents));
            lemma_list_ok_carries(h, a, q, h.entry(q).dependents);
        }
    }
}

/// Recording an edge that is accepted keeps the edges sound.
pub proof fn lemma_add_dependent_edges_ok<T>(h: HeapView<T>, p: Pointer, d: Pointer)
    requires
        h.edges_ok(),
        h.add_dependent_outcome(p, d) is Ok,
    ensures
        h.with_dependents(p, linked(h.entry(p).dependents, d)).edges_ok(),
{
    assert(h.list_ok(p, h.entry(p).dependents));
    lemma_linked_ok(h, p, h.entry(p).dependents, d);
    lemma_with_dependents_edges_ok(h, p, linked(h.entry(p).dependents, d));
}

/// Removing an edge keeps the edges sound.
pub proof fn lemma_remove_dependent_edges_ok<T>(h: HeapView<T>, p: Pointer, d: Pointer)
    requires
        h.edges_ok(),
        h.contains(p),
    ensures
        h.with_dependents(p, unlinked(h.entry(p).dependents, d)).edges_ok(),
{
    assert(h.list_ok(p, h.entry(p).dependents));
    lemma_unlinked_ok(h, p, h.entry(p).dependents, d);
    lemma_with_dependents_edges_ok(h, p, unlinked(h.entry(p).dependents, d));
}

/// Bindings have no part in the edges.
pub proof fn lemma_with_ui_properties_edges_ok<T>(
    h: HeapView<T>,
    p: Pointer,
    props: Seq<DynamicProperty>,
)
    requires
        h.edges_ok(),
        h.contains(p),
    ensures
        h.with_ui_properties(p, props).edges_ok(),
{
    let a = h.with_ui_properties(p, props);
    assert forall|x: Pointer| h.is_formula(x) implies a.is_formula(x) by {}
    assert forall|q: Pointer| a.contains(q) implies a.list_ok(
        q,
        (#[trigger] a.entry(q)).dependents,
    ) by {
        assert(h.contains(q));
        assert(h.list_ok(q, h.entry(q).dependents));
        if q.index == p.index {
            assert(q == p);
        }
        lemma_list_ok_carries(h, a, q, h.entry(q).dependents);
    }
}

/// Replacing a value keeps the edges sound: the slot keeps its kind.
pub proof fn lemma_with_current_edges_ok<T>(h: HeapView<T>, p: Pointer, value: T)
    requires
        h.edges_ok(),
        h.contains(p),
    ensures
        h.with_current(p, value).edges_ok(),
{
    let a = h.with_current(p, value);
    assert forall|x: Pointer| h.is_formula(x) implies a.is_formula(x) by {}
    assert forall|q: Pointer| a.contains(q) implies a.list_ok(
        q,
        (#[trigger] a.entry(q)).dependents,
    ) by {
        assert(h.contains(q));
        assert(h.list_ok(q, h.entry(q).dependents));
        if q.index == p.index {
            assert(q == p);
        }
        lemma_list_ok_carries(h, a, q, h.entry(q).dependents);
    }
}

/// Taking in an evaluation keeps the edges sound: the formula is added
/// where it was read, once, and never to its own list.
pub proof fn lemma_evaluated_edges_ok<T>(h: HeapView<T>, d: Pointer, value: T, reads: Seq<Pointer>)
    requires
        h.edges_ok(),
        h.evaluation_outcome(d, reads) is Ok,
    ensures
        h.evaluated(d, value, reads).edges_ok(),
{
    let m = h.reconciled(d, reads);
    let a = h.evaluated(d, value, reads);
    lemma_accepted_reads(h, d, reads);
    assert forall|x: Pointer| h.is_formula(x) implies a.is_formula(x) by {}
    assert forall|q: Pointer| a.contains(q) implies a.list_ok(
        q,
        (#[trigger] a.entry(q)).dependents,
    ) by {
        assert(h.contains(q));
        assert(h.pointer_at(q.index as int) == q);
        let deps = h.entry(q).dependents;
        assert(h.list_ok(q, deps));
        assert(a.entry(q).dependents == m.entry(q).dependents);
        if reads.contains(q) {
            assert(q != d);
            lemma_linked_ok(h, q, deps, d);
            lemma_list_ok_carries(h, a, q, linked(deps, d));
        } else {
            lemma_unlinked_ok(h, q, deps, d);
            lemma_list_ok_carries(h, a, q, unlinked(deps, d));
        }
    }
}

/// One round of a pass keeps the edges sound.
pub proof fn lemma_round_edges_ok<T>(h: HeapView<T>, p: PassView, e: Evaluation<T>)
    requires
        h.edges_ok(),
    ensures
        round(h, p, e).0.edges_ok(),
{
    match p.advanced(h).1 {
        None => {},
        Some((d, _)) => {
            if h.evaluation_outcome(d, e.reads) is Ok {
                lemma_evaluated_edges_ok(h, d, e.value, e.reads);
            }
        },
    }
}

/// A whole pass keeps the edges sound, whatever the registry answers.
pub proof fn lemma_replay_edges_ok<T>(h: HeapView<T>, p: PassView, evals: Seq<Evaluation<T>>)
    requires
        h.edges_ok(),
    ensures
        replay(h, p, evals).0.edges_ok(),
    decreases evals.len(),
{
    if evals.len() > 0 {
        lemma_replay_edges_ok(h, p, evals.drop_last());
        let (hm, pm) = replay(h, p, evals.drop_last());
        lemma_round_edges_ok(hm, pm, evals.last());
    }
}

/// A write, with the pass it starts, keeps the arena well formed and the
/// edges sound, whatever the registry answers.
pub proof fn lemma_written_edges_ok<
    T: PartialEq,
    F: Fn(ClosurePointer, &Heap<T>) -> (T, Vec<Pointer>),
>(evaluate: F, before: HeapView<T>, p: Pointer, value: T, after: HeapView<T>, report: ReportView)
    requires
        before.wf(),
        before.edges_ok(),
        before.write_outcome(p) is Ok,
        written(evaluate, before, p, value, after, report),
    ensures
        after.wf(),
        after.edges_ok(),
{
    let stored = before.with_current(p, value);
    lemma_with_current_edges_ok(before, p, value);
    crate::pass_laws::lemma_write_then_read(evaluate, before, p, value, after, report);
    assert(stored.wf()) by {
        assert forall|k: int| 0 <= k < stored.free.len() implies stored.reusable(
            #[trigger] stored.free[k],
        ) by {
            assert(before.reusable(before.free[k]));
        }
    }
    lemma_kept(stored, after);
    if after != stored {
        let start = PassView::start(p, stored.entry(p).dependents);
        let evals = choose|evals: Seq<Evaluation<T>>|
            #[trigger] pass_of(evaluate, stored, start, evals, after, report);
        lemma_replay_edges_ok(stored, start, evals);
    }
}

} // verus!
