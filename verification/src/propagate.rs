//! Writing a value and carrying the change through the formulas that
//! depend on it.

use vstd::prelude::*;
use vstd::std_specs::cmp::PartialEqSpec;
use vstd::set_lib::{lemma_int_range, lemma_len_subset, set_int_range};
use crate::heap::{Heap, HeapView};
use crate::pass::{PassView, Propagation, PropagationReport, ReportView};
use crate::pointer::{ClosurePointer, LookupError, Pointer};

verus! {

/// The result of one evaluation made during a pass, and what was decided
/// on it.
pub struct Evaluation<T> {
    /// The value the closure returned.
    pub value: T,
    /// The slots the closure reported to have read.
    pub reads: Seq<Pointer>,
    /// Whether the value was found to differ from the cached one.
    pub changed: bool,
}

/// Whether `evaluate` can return `value` and `reads` when it is asked for
/// `closure` against a heap with the content `heap`.
pub open spec fn may_return<T, F: Fn(ClosurePointer, &Heap<T>) -> (T, Vec<Pointer>)>(
    evaluate: F,
    closure: ClosurePointer,
    heap: HeapView<T>,
    value: T,
    reads: Seq<Pointer>,
) -> bool {
    exists|h: Heap<T>, r: Vec<Pointer>|
        h@ == heap && h.inv() && r@ == reads && #[trigger] call_ensures(
            evaluate,
            (closure, &h),
            (value, r),
        )
}

/// Whether a pass that started from `before` can ask the registry for
/// `closure` against `heap`: the closure belongs to a formula of the heap,
/// and `heap` differs from `before` in caches and edges only.
pub open spec fn asks<T>(before: HeapView<T>, closure: ClosurePointer, heap: HeapView<T>) -> bool {
    &&& before.kept_by(heap)
    &&& exists|d: Pointer| #[trigger]
        before.is_formula(d) && before.entry(d).value->closure == closure
}

/// One round of a pass: advance to the next formula, take in the result
/// `e` of its evaluation, record the outcome. Where nothing is left to
/// evaluate, the round only finishes the bookkeeping.
pub open spec fn round<T>(heap: HeapView<T>, pass: PassView, e: Evaluation<T>) -> (
    HeapView<T>,
    PassView,
) {
    let (at, job) = pass.advanced(heap);
    match job {
        None => (heap, at),
        Some((d, _)) => match heap.evaluation_outcome(d, e.reads) {
            Err(err) => (heap, at.recorded(heap, d, Err(err))),
            Ok(()) => {
                let after = heap.evaluated(d, e.value, e.reads);
                (after, at.recorded(after, d, Ok(e.changed)))
            },
        },
    }
}

/// The heap and the pass after the rounds for `evals`, in their order.
pub open spec fn replay<T>(heap: HeapView<T>, pass: PassView, evals: Seq<Evaluation<T>>) -> (
    HeapView<T>,
    PassView,
)
    decreases evals.len(),
{
    if evals.len() == 0 {
        (heap, pass)
    } else {
        let (h, p) = replay(heap, pass, evals.drop_last());
        round(h, p, evals.last())
    }
}

/// Whether `e` is a result that the round starting from `heap` and `pass`
/// can get: there is a formula to evaluate, `evaluate` can return the value
/// and the reads for its closure against `heap`, and the value counts as
/// changed exactly if it is not equal to the cached one.
pub open spec fn answered<T: PartialEq, F: Fn(ClosurePointer, &Heap<T>) -> (T, Vec<Pointer>)>(
    evaluate: F,
    heap: HeapView<T>,
    pass: PassView,
    e: Evaluation<T>,
) -> bool {
    match pass.advanced(heap).1 {
        None => false,
        Some((d, closure)) => {
            &&& may_return(evaluate, closure, heap, e.value, e.reads)
            &&& T::obeys_eq_spec() && heap.evaluation_outcome(d, e.reads) is Ok ==> e.changed
                == !e.value.eq_spec(&heap.entry(d).value.current())
        },
    }
}

/// Whether every element of `evals` answers the round it belongs to, in a
/// pass that starts from `heap` and `pass`.
pub open spec fn all_answered<T: PartialEq, F: Fn(ClosurePointer, &Heap<T>) -> (T, Vec<Pointer>)>(
    evaluate: F,
    heap: HeapView<T>,
    pass: PassView,
    evals: Seq<Evaluation<T>>,
) -> bool {
    forall|k: int|
        0 <= k < evals.len() ==> answered(
            evaluate,
            replay(heap, pass, evals.take(k)).0,
            replay(heap, pass, evals.take(k)).1,
            #[trigger] evals[k],
        )
}

/// Whether a pass that starts from `heap` and `pass`, and gets `evals` from
/// `evaluate`, ends with `end` and `report`: every element of `evals` answers
/// the round it belongs to, and after the last round nothing is left to
/// evaluate.
pub open spec fn pass_of<T: PartialEq, F: Fn(ClosurePointer, &Heap<T>) -> (T, Vec<Pointer>)>(
    evaluate: F,
    heap: HeapView<T>,
    pass: PassView,
    evals: Seq<Evaluation<T>>,
    end: HeapView<T>,
    report: ReportView,
) -> bool {
    let (h, p) = replay(heap, pass, evals);
    &&& all_answered(evaluate, heap, pass, evals)
    &&& p.advanced(h).1 is None
    &&& end == h
    &&& report == p.advanced(h).0.report
}

/// One more round extends a replay at its end.
pub proof fn lemma_replay_push<T>(
    heap: HeapView<T>,
    pass: PassView,
    evals: Seq<Evaluation<T>>,
    e: Evaluation<T>,
)
    ensures
        replay(heap, pass, evals.push(e)) == round(
            replay(heap, pass, evals).0,
            replay(heap, pass, evals).1,
            e,
        ),
{
    assert(evals.push(e).drop_last() =~= evals);
}

/// Answers stay answers when one more is added at the end.
proof fn lemma_answers_push<T: PartialEq, F: Fn(ClosurePointer, &Heap<T>) -> (T, Vec<Pointer>)>(
    evaluate: F,
    heap: HeapView<T>,
    pass: PassView,
    evals: Seq<Evaluation<T>>,
    e: Evaluation<T>,
)
    requires
        all_answered(evaluate, heap, pass, evals),
        answered(evaluate, replay(heap, pass, evals).0, replay(heap, pass, evals).1, e),
    ensures
        all_answered(evaluate, heap, pass, evals.push(e)),
{
    let next = evals.push(e);
    assert forall|k: int| 0 <= k < next.len() implies answered(
        evaluate,
        replay(heap, pass, next.take(k)).0,
        replay(heap, pass, next.take(k)).1,
        #[trigger] next[k],
    ) by {
        if k < evals.len() {
            assert(next.take(k) =~= evals.take(k));
            assert(next[k] == evals[k]);
        } else {
            assert(next.take(k) =~= evals);
        }
    }
}

/// A list without duplicates stays so when an element it lacks is added.
proof fn lemma_push_no_duplicates(s: Seq<Pointer>, d: Pointer)
    requires
        s.no_duplicates(),
        !s.contains(d),
    ensures
        s.push(d).no_duplicates(),
{
    let t = s.push(d);
    assert forall|i: int, j: int| 0 <= i < t.len() && 0 <= j < t.len() && i != j implies t[i]
        != t[j] by {
        if i < s.len() {
            assert(s[i] == t[i]);
        }
        if j < s.len() {
            assert(s[j] == t[j]);
        }
    }
}

/// Whether a pass for a change of the live pointer `origin`, with
/// `evaluate` as the registry, can lead from `before` to `after` and
/// `report`.
pub open spec fn propagated<T: PartialEq, F: Fn(ClosurePointer, &Heap<T>) -> (T, Vec<Pointer>)>(
    evaluate: F,
    before: HeapView<T>,
    origin: Pointer,
    after: HeapView<T>,
    report: ReportView,
) -> bool {
    exists|evals: Seq<Evaluation<T>>|
        #[trigger] pass_of(
            evaluate,
            before,
            PassView::start(origin, before.entry(origin).dependents),
            evals,
            after,
            report,
        )
}

/// Whether writing `value` to the plain slot `p`, with `evaluate` as the
/// registry, can lead from `before` to `after` and `report`.
///
/// The value is stored in either case. Where it is equal to the one it
/// replaces, nothing else happens and the report is empty; where it is not,
/// a pass for `p` follows.
pub open spec fn written<T: PartialEq, F: Fn(ClosurePointer, &Heap<T>) -> (T, Vec<Pointer>)>(
    evaluate: F,
    before: HeapView<T>,
    p: Pointer,
    value: T,
    after: HeapView<T>,
    report: ReportView,
) -> bool {
    let stored = before.with_current(p, value);
    let same = value.eq_spec(&before.entry(p).value.current());
    ||| {
        &&& T::obeys_eq_spec() ==> same
        &&& after == stored
        &&& report == ReportView::empty()
    }
    ||| {
        &&& T::obeys_eq_spec() ==> !same
        &&& propagated(evaluate, stored, p, after, report)
    }
}

/// What advancing a pass does to its record: the formula it stops at is a
/// live formula that the pass has not dealt with before, and it is the one
/// addition to the list of evaluated formulas.
pub proof fn lemma_advanced<T>(pass: PassView, heap: HeapView<T>)
    ensures
        pass.advanced(heap).0.origin == pass.origin,
        pass.advanced(heap).0.report.changed == pass.report.changed,
        match pass.advanced(heap).1 {
            None => pass.advanced(heap).0.report.recomputed == pass.report.recomputed
                && pass.advanced(heap).0.pending.len() == 0,
            Some((d, closure)) => heap.is_formula(d) && heap.entry(d).value->closure == closure
                && !pass.visited(d) && pass.pending.contains(d)
                && pass.advanced(heap).0.report.recomputed == pass.report.recomputed.push(d),
        },
        forall|x: Pointer|
            pass.advanced(heap).0.pending.contains(x) ==> pass.pending.contains(x),
    decreases pass.pending.len(),
{
    if pass.pending.len() > 0 {
        let d = pass.pending.first();
        let rest = pass.pending.drop_first();
        assert forall|x: Pointer| rest.contains(x) implies pass.pending.contains(x) by {
            let k = choose|k: int| 0 <= k < rest.len() && rest[k] == x;
            assert(pass.pending[k + 1] == x);
        }
        assert(pass.pending[0] == d);
        match pass.job(heap, d) {
            Err(err) => {
                let next = pass.popped().with_failure(d, err);
                lemma_advanced(next, heap);
                assert(next.pending == rest);
                assert forall|x: Pointer|
                    pass.advanced(heap).0.pending.contains(x) implies pass.pending.contains(x) by {
                    assert(next.advanced(heap).0.pending.contains(x));
                    assert(rest.contains(x));
                }
            },
            Ok(_) => {
                assert(pass.advanced(heap).0.pending == rest);
            },
        }
    }
}

/// Taking in an evaluation keeps the shape of the heap: the same positions,
/// the same generations, the same pointers resolve.
pub proof fn lemma_evaluated_shape<T>(h: HeapView<T>, d: Pointer, value: T, reads: Seq<Pointer>)
    requires
        h.contains(d),
    ensures
        h.evaluated(d, value, reads).slots.len() == h.slots.len(),
        h.evaluated(d, value, reads).free == h.free,
        forall|p: Pointer| h.evaluated(d, value, reads).contains(p) == h.contains(p),
        forall|i: int|
            0 <= i < h.slots.len() ==> h.evaluated(d, value, reads).slots[i].generation
                == h.slots[i].generation,
{
}

/// Distinct live pointers sit at distinct positions, so there are no more
/// of them than positions.
pub proof fn lemma_live_pointers_bounded<T>(h: HeapView<T>, s: Seq<Pointer>)
    requires
        s.no_duplicates(),
        forall|k: int| 0 <= k < s.len() ==> h.contains(#[trigger] s[k]),
    ensures
        s.len() <= h.slots.len(),
{
    let idx = Seq::new(s.len(), |k: int| s[k].index as int);
    assert forall|i: int, j: int| 0 <= i < idx.len() && 0 <= j < idx.len() && i != j implies idx[i]
        != idx[j] by {
        assert(h.contains(s[i]) && h.contains(s[j]));
        if s[i].index == s[j].index {
            assert(s[i] == s[j]);
        }
    }
    idx.unique_seq_to_set();
    let n = h.slots.len() as int;
    lemma_int_range(0, n);
    assert forall|x: int| idx.to_set().contains(x) implies set_int_range(0, n).contains(x) by {
        let k = choose|k: int| 0 <= k < idx.len() && idx[k] == x;
        assert(h.contains(s[k]));
    }
    lemma_len_subset(idx.to_set(), set_int_range(0, n));
}

impl<T: PartialEq> Heap<T> {
    /// Carries a change of `origin` through the formulas that depend on it,
    /// level by level.
    ///
    /// Each dependent is evaluated by `evaluate`, against the heap as it is at
    /// that moment, and the result is taken in by [`Heap::apply_evaluation`].
    /// Where the value of a formula changes, its own dependents follow; where
    /// it does not, the pass ends there. No formula is evaluated twice in one
    /// pass, so the pass ends whatever the edges look like. A dependent that
    /// cannot be evaluated, or whose result is refused, is reported, and the
    /// pass goes on with the others.
    pub fn propagate<F: Fn(ClosurePointer, &Heap<T>) -> (T, Vec<Pointer>)>(
        &mut self,
        origin: Pointer,
        evaluate: &F,
    ) -> (r: Result<PropagationReport, LookupError>)
        requires
            forall|c: ClosurePointer, h: &Heap<T>|
                h.inv() && asks(old(self)@, c, h@) ==> call_requires(evaluate, (c, h)),
        ensures
            match old(self)@.lookup(origin) {
                Err(err) => r is Err && r->Err_0 == err && final(self)@ == old(self)@,
                Ok(_) => r is Ok && propagated(
                    evaluate,
                    old(self)@,
                    origin,
                    final(self)@,
                    r->Ok_0@,
                ),
            },
            r is Ok ==> old(self)@.kept_by(final(self)@),
            r is Ok ==> r->Ok_0@.recomputed.no_duplicates() && r->Ok_0@.recomputed.len() <= old(
                self,
            )@.slots.len(),
    {
        let mut pass = match Propagation::begin(&*self, origin) {
            Err(err) => {
                return Err(err);
            },
            Ok(pass) => pass,
        };
        let ghost base = self@;
        let ghost start = pass@;
        let ghost mut evals: Seq<Evaluation<T>> = Seq::empty();
        proof {
            crate::pass_laws::lemma_kept_chain(base, base, base);
        }
        loop
            invariant_except_break
                (self@, pass@) == replay(base, start, evals),
            invariant
                forall|c: ClosurePointer, h: &Heap<T>|
                    h.inv() && asks(base, c, h@) ==> call_requires(evaluate, (c, h)),
                base.kept_by(self@),
                all_answered(evaluate, base, start, evals),
                self@.slots.len() == base.slots.len(),
                pass@.report.recomputed.no_duplicates(),
                forall|k: int|
                    0 <= k < pass@.report.recomputed.len() ==> self@.contains(
                        #[trigger] pass@.report.recomputed[k],
                    ),
            ensures
                pass_of(evaluate, base, start, evals, self@, pass@.report),
                pass@.report.recomputed.no_duplicates(),
                pass@.report.recomputed.len() <= base.slots.len(),
            decreases base.slots.len() - pass@.report.recomputed.len(),
        {
            let ghost hk = self@;
            let ghost pk = pass@;
            proof {
                use_type_invariant(&*self);
                lemma_advanced(pk, hk);
                lemma_live_pointers_bounded(hk, pk.report.recomputed);
            }
            match pass.next(&*self) {
                None => {
                    break;
                },
                Some((d, closure)) => {
                    let ghost at = pass@;
                    proof {
                        lemma_push_no_duplicates(pk.report.recomputed, d);
                        assert forall|k: int| 0 <= k < at.report.recomputed.len() implies hk.contains(
                            #[trigger] at.report.recomputed[k],
                        ) by {
                            if k < pk.report.recomputed.len() {
                                assert(at.report.recomputed[k] == pk.report.recomputed[k]);
                            }
                        }
                        lemma_live_pointers_bounded(hk, at.report.recomputed);
                        crate::pass_laws::lemma_kept(base, hk);
                        assert(base.is_formula(d) && base.entry(d).value->closure == closure);
                        assert(asks(base, closure, hk));
                    }
                    let (value, reads) = evaluate(closure, &*self);
                    let ghost gv = value;
                    proof {
                        assert(call_ensures(evaluate, (closure, &*self), (value, reads)));
                        assert(may_return(evaluate, closure, hk, gv, reads@));
                    }
                    let outcome = self.apply_evaluation(d, value, &reads);
                    pass.record(&*self, d, outcome);
                    proof {
                        let e = Evaluation {
                            value: gv,
                            reads: reads@,
                            changed: outcome is Ok && outcome->Ok_0,
                        };
                        assert(answered(evaluate, hk, pk, e));
                        assert((self@, pass@) == round(hk, pk, e));
                        lemma_replay_push(base, start, evals, e);
                        lemma_answers_push(evaluate, base, start, evals, e);
                        lemma_evaluated_shape(hk, d, e.value, e.reads);
                        crate::pass_laws::lemma_round_kept(hk, pk, e);
                        crate::pass_laws::lemma_kept_chain(base, hk, self@);
                        evals = evals.push(e);
                    }
                },
            }
        }
        let report = pass.finish();
        proof {
            crate::pass_laws::lemma_replay_kept(
                old(self)@,
                PassView::start(origin, old(self)@.entry(origin).dependents),
                evals,
            );
            assert(pass_of(
                evaluate,
                old(self)@,
                PassView::start(origin, old(self)@.entry(origin).dependents),
                evals,
                self@,
                report@,
            ));
        }
        Ok(report)
    }

    /// Overwrites the value of the plain slot `p` and, where that changes
    /// the value, brings every formula that depends on it up to date before
    /// returning. Writing the value the slot already holds evaluates
    /// nothing.
    ///
    /// A formula is refused with `TypeMismatch`: its value changes only by
    /// evaluation. A refused call changes nothing.
    pub fn write<F: Fn(ClosurePointer, &Heap<T>) -> (T, Vec<Pointer>)>(
        &mut self,
        p: Pointer,
        value: T,
        evaluate: &F,
    ) -> (r: Result<PropagationReport, LookupError>)
        requires
            forall|c: ClosurePointer, h: &Heap<T>|
                h.inv() && asks(old(self)@.with_current(p, value), c, h@) ==> call_requires(
                    evaluate,
                    (c, h),
                ),
        ensures
            match old(self)@.write_outcome(p) {
                Err(err) => r is Err && r->Err_0 == err && final(self)@ == old(self)@,
                Ok(()) => r is Ok && written(
                    evaluate,
                    old(self)@,
                    p,
                    value,
                    final(self)@,
                    r->Ok_0@,
                ),
            },
            r is Ok ==> final(self)@.read(p) == Ok::<T, LookupError>(value),
            r is Ok ==> old(self)@.with_current(p, value).kept_by(final(self)@),
    {
        let changed = match self.get(p) {
            Err(err) => {
                return Err(err);
            },
            Ok(e) => match e.value.value() {
                Err(err) => {
                    return Err(err);
                },
                Ok(current) => !(value == *current),
            },
        };
        if let Ok(e) = self.get_mut(p) {
            e.value.rebind(value);
        }
        assert(self@ == old(self)@.with_current(p, value));
        let r = if changed {
            self.propagate(p, evaluate)
        } else {
            Ok(PropagationReport::new())
        };
        proof {
            crate::pass_laws::lemma_write_then_read(
                evaluate,
                old(self)@,
                p,
                value,
                self@,
                r->Ok_0@,
            );
        }
        r
    }
}

} // verus!
