//! What holds of writes and of propagation passes, whatever the registry
//! answers.

use vstd::prelude::*;
use vstd::std_specs::cmp::PartialEqSpec;
use crate::edges::{lemma_linked_contains, lemma_unlinked_contains};
use crate::heap::{Heap, HeapView, SlotView};
use crate::pass::{PassView, ReportView};
use crate::pointer::{ClosurePointer, LookupError, Pointer};
use crate::propagate::{
    pass_of,
    propagated,
    replay,
    round,
    written,
    Evaluation,
};
use crate::value::HeapValue;

verus! {

impl<T> HeapValue<T> {
    /// Whether `after` is the same kind of slot as this one: a plain slot
    /// with the same value, or a formula with the same closure.
    pub open spec fn kept_by(self, after: HeapValue<T>) -> bool {
        match self {
            HeapValue::Value(_) => after == self,
            HeapValue::Formula { closure, .. } => after is Formula && after->closure == closure,
        }
    }
}

impl<T> SlotView<T> {
    /// Whether `after` differs from this position in nothing but the cache
    /// of a formula and the list of dependents.
    pub open spec fn kept_by(self, after: SlotView<T>) -> bool {
        &&& after.generation == self.generation
        &&& after.entry is Some <==> self.entry is Some
        &&& self.entry is Some ==> {
            &&& self.entry->0.value.kept_by(after.entry->0.value)
            &&& after.entry->0.ui_properties == self.entry->0.ui_properties
        }
    }
}

impl<T> HeapView<T> {
    /// Whether `after` differs from this heap in nothing but caches of
    /// formulas and lists of dependents: the same positions under the same
    /// generations, the same pointers live, plain values, closures and
    /// bindings as they were.
    pub open spec fn kept_by(self, after: HeapView<T>) -> bool {
        &&& after.slots.len() == self.slots.len()
        &&& after.free == self.free
        &&& forall|i: int|
            0 <= i < self.slots.len() ==> self.slots[i].kept_by(#[trigger] after.slots[i])
    }

    /// Whether no entry lists itself among its dependents.
    pub open spec fn no_self_edges(self) -> bool {
        forall|p: Pointer| self.contains(p) ==> !self.entry(p).dependents.contains(p)
    }
}

/// What `kept_by` means for pointers: the same ones resolve, and to entries
/// of the same kind.
pub proof fn lemma_kept<T>(before: HeapView<T>, after: HeapView<T>)
    requires
        before.kept_by(after),
    ensures
        before.wf() ==> after.wf(),
        forall|p: Pointer| after.contains(p) == before.contains(p),
        forall|p: Pointer| after.issued(p) == before.issued(p),
        forall|p: Pointer|
            before.contains(p) ==> before.entry(p).value.kept_by(after.entry(p).value)
                && after.entry(p).ui_properties == before.entry(p).ui_properties,
        forall|p: Pointer|
            before.contains(p) && before.entry(p).value is Value ==> after.read(p) == before.read(
                p,
            ),
{
    assert forall|p: Pointer| after.contains(p) == before.contains(p) by {
        if p.index < before.slots.len() {
            assert(before.slots[p.index as int].kept_by(after.slots[p.index as int]));
        }
    }
    assert forall|p: Pointer| after.issued(p) == before.issued(p) by {
        if p.index < before.slots.len() {
            assert(before.slots[p.index as int].kept_by(after.slots[p.index as int]));
        }
    }
    assert forall|p: Pointer| before.contains(p) implies before.entry(p).value.kept_by(
        after.entry(p).value,
    ) && after.entry(p).ui_properties == before.entry(p).ui_properties by {
        assert(before.slots[p.index as int].kept_by(after.slots[p.index as int]));
    }
    if before.wf() {
        assert forall|k: int| 0 <= k < after.free.len() implies after.reusable(
            #[trigger] after.free[k],
        ) by {
            assert(before.reusable(before.free[k]));
            assert(before.slots[before.free[k] as int].kept_by(after.slots[after.free[k] as int]));
        }
    }
}

/// `kept_by` holds of a heap and itself, and carries over a heap in
/// between.
pub proof fn lemma_kept_chain<T>(a: HeapView<T>, b: HeapView<T>, c: HeapView<T>)
    requires
        a.kept_by(b),
        b.kept_by(c),
    ensures
        a.kept_by(a),
        a.kept_by(c),
{
    assert forall|i: int| 0 <= i < a.slots.len() implies a.slots[i].kept_by(
        #[trigger] c.slots[i],
    ) by {
        assert(a.slots[i].kept_by(b.slots[i]));
        assert(b.slots[i].kept_by(c.slots[i]));
    }
}

/// Taking in an evaluation changes caches and edges only, and the one cache
/// it changes is that of the formula evaluated.
pub proof fn lemma_evaluated_kept<T>(h: HeapView<T>, d: Pointer, value: T, reads: Seq<Pointer>)
    requires
        h.is_formula(d),
    ensures
        h.kept_by(h.evaluated(d, value, reads)),
        h.evaluated(d, value, reads).entry(d).value.current() == value,
        forall|q: Pointer|
            h.contains(q) && q != d ==> h.evaluated(d, value, reads).entry(q).value == h.entry(
                q,
            ).value,
{
    let a = h.evaluated(d, value, reads);
    assert forall|i: int| 0 <= i < h.slots.len() implies h.slots[i].kept_by(
        #[trigger] a.slots[i],
    ) by {}
    assert forall|q: Pointer| h.contains(q) && q != d implies a.entry(q).value == h.entry(
        q,
    ).value by {
        lemma_live_index(h, q, d);
    }
}

/// Two live pointers that differ sit at different positions.
proof fn lemma_live_index<T>(h: HeapView<T>, p: Pointer, q: Pointer)
    requires
        h.contains(p),
        h.contains(q),
        p != q,
    ensures
        p.index != q.index,
{
}

/// One round of a pass changes caches and edges only.
pub proof fn lemma_round_kept<T>(h: HeapView<T>, p: PassView, e: Evaluation<T>)
    ensures
        h.kept_by(round(h, p, e).0),
{
    crate::propagate::lemma_advanced(p, h);
    match p.advanced(h).1 {
        None => {
            lemma_kept_chain(h, h, h);
        },
        Some((d, _)) => {
            if h.evaluation_outcome(d, e.reads) is Ok {
                lemma_evaluated_kept(h, d, e.value, e.reads);
            } else {
                lemma_kept_chain(h, h, h);
            }
        },
    }
}

/// A whole pass changes caches and edges only: no slot appears or
/// disappears, no plain value, closure or binding changes.
pub proof fn lemma_replay_kept<T>(h: HeapView<T>, p: PassView, evals: Seq<Evaluation<T>>)
    ensures
        h.kept_by(replay(h, p, evals).0),
    decreases evals.len(),
{
    if evals.len() == 0 {
        lemma_kept_chain(h, h, h);
    } else {
        lemma_replay_kept(h, p, evals.drop_last());
        let (hm, pm) = replay(h, p, evals.drop_last());
        lemma_round_kept(hm, pm, evals.last());
        lemma_kept_chain(h, hm, round(hm, pm, evals.last()).0);
    }
}

/// Whatever the registry answers, a pass leaves the shape of the heap, the
/// plain values, the closures and the bindings as they were.
pub proof fn lemma_propagated_kept<
    T: PartialEq,
    F: Fn(ClosurePointer, &Heap<T>) -> (T, Vec<Pointer>),
>(evaluate: F, before: HeapView<T>, origin: Pointer, after: HeapView<T>, report: ReportView)
    requires
        propagated(evaluate, before, origin, after, report),
    ensures
        before.kept_by(after),
{
    let evals = choose|evals: Seq<Evaluation<T>>|
        #[trigger] pass_of(
            evaluate,
            before,
            PassView::start(origin, before.entry(origin).dependents),
            evals,
            after,
            report,
        );
    lemma_replay_kept(before, PassView::start(origin, before.entry(origin).dependents), evals);
}

/// A value written to a plain slot is the value read back from it, whatever
/// the pass in between did; every other plain slot reads as before, and
/// bindings stay where they were.
pub proof fn lemma_write_then_read<
    T: PartialEq,
    F: Fn(ClosurePointer, &Heap<T>) -> (T, Vec<Pointer>),
>(evaluate: F, before: HeapView<T>, p: Pointer, value: T, after: HeapView<T>, report: ReportView)
    requires
        before.write_outcome(p) is Ok,
        written(evaluate, before, p, value, after, report),
    ensures
        after.read(p) == Ok::<T, LookupError>(value),
        before.with_current(p, value).kept_by(after),
        forall|q: Pointer|
            q != p && before.contains(q) && before.entry(q).value is Value ==> after.read(q)
                == before.read(q),
        forall|q: Pointer|
            before.contains(q) ==> after.contains(q) && after.entry(q).ui_properties
                == before.entry(q).ui_properties,
{
    let stored = before.with_current(p, value);
    if after == stored {
        lemma_kept_chain(stored, stored, stored);
    } else {
        lemma_propagated_kept(evaluate, stored, p, after, report);
    }
    lemma_kept(stored, after);
    assert(stored.contains(p));
    assert(stored.entry(p).value == HeapValue::Value(value));
    assert forall|q: Pointer|
        q != p && before.contains(q) && before.entry(q).value is Value implies after.read(q)
        == before.read(q) by {
        lemma_live_index(before, p, q);
        assert(stored.contains(q));
        assert(stored.entry(q) == before.entry(q));
    }
    assert forall|q: Pointer| before.contains(q) implies after.contains(q) && after.entry(
        q,
    ).ui_properties == before.entry(q).ui_properties by {
        assert(stored.contains(q));
        if q != p {
            lemma_live_index(before, p, q);
        }
    }
}

/// Writing a value equal to the one a slot holds evaluates nothing and
/// reaches no other slot.
pub proof fn lemma_equal_write_evaluates_nothing<
    T: PartialEq,
    F: Fn(ClosurePointer, &Heap<T>) -> (T, Vec<Pointer>),
>(evaluate: F, before: HeapView<T>, p: Pointer, value: T, after: HeapView<T>, report: ReportView)
    requires
        T::obeys_eq_spec(),
        value.eq_spec(&before.entry(p).value.current()),
        written(evaluate, before, p, value, after, report),
    ensures
        report.recomputed.len() == 0,
        report == ReportView::empty(),
        after == before.with_current(p, value),
{
}

/// An evaluation that is taken in read only live slots, and not the formula
/// itself.
pub proof fn lemma_accepted_reads<T>(h: HeapView<T>, d: Pointer, reads: Seq<Pointer>)
    requires
        h.reads_outcome(d, reads) is Ok,
    ensures
        !reads.contains(d),
        forall|k: int| 0 <= k < reads.len() ==> h.contains(#[trigger] reads[k]),
    decreases reads.len(),
{
    if reads.len() > 0 {
        lemma_accepted_reads(h, d, reads.drop_last());
        assert forall|k: int| 0 <= k < reads.len() implies h.contains(#[trigger] reads[k]) by {
            if k < reads.len() - 1 {
                assert(reads.drop_last()[k] == reads[k]);
            }
        }
        if reads.contains(d) {
            let k = choose|k: int| 0 <= k < reads.len() && reads[k] == d;
            if k < reads.len() - 1 {
                assert(reads.drop_last()[k] == d);
            }
        }
    }
}

/// A formula reported to read itself is refused, and the heap stays as it
/// is: a self-dependency never enters the store by an evaluation.
pub proof fn lemma_self_read_refused<T>(h: HeapView<T>, d: Pointer, reads: Seq<Pointer>)
    requires
        reads.contains(d),
    ensures
        h.evaluation_outcome(d, reads) is Err,
{
    if h.reads_outcome(d, reads) is Ok {
        lemma_accepted_reads(h, d, reads);
    }
}

/// After an evaluation was taken in, exactly the slots it read list the
/// formula as a dependent; edges towards other slots are as they were.
pub proof fn lemma_evaluated_edges<T>(h: HeapView<T>, d: Pointer, value: T, reads: Seq<Pointer>)
    requires
        h.evaluation_outcome(d, reads) is Ok,
    ensures
        forall|s: Pointer|
            h.contains(s) ==> (h.evaluated(d, value, reads).entry(s).dependents.contains(d)
                <==> reads.contains(s)),
        forall|s: Pointer, x: Pointer|
            h.contains(s) && x != d ==> (h.evaluated(d, value, reads).entry(s).dependents.contains(
                x,
            ) <==> h.entry(s).dependents.contains(x)),
        h.no_self_edges() ==> h.evaluated(d, value, reads).no_self_edges(),
{
    let a = h.evaluated(d, value, reads);
    lemma_accepted_reads(h, d, reads);
    assert forall|s: Pointer, x: Pointer| h.contains(s) implies (a.entry(s).dependents.contains(x)
        <==> if x == d {
        reads.contains(s)
    } else {
        h.entry(s).dependents.contains(x)
    }) by {
        assert(h.pointer_at(s.index as int) == s);
        lemma_linked_contains(h.entry(s).dependents, d, x);
        lemma_unlinked_contains(h.entry(s).dependents, d, x);
    }
    if h.no_self_edges() {
        assert forall|p: Pointer| a.contains(p) implies !a.entry(p).dependents.contains(p) by {
            assert(h.contains(p));
        }
    }
}

/// The formula that round `k` of a pass evaluates, with its closure.
pub open spec fn job_of_round<T>(
    heap: HeapView<T>,
    pass: PassView,
    evals: Seq<Evaluation<T>>,
    k: int,
) -> Option<(Pointer, ClosurePointer)> {
    let (h, p) = replay(heap, pass, evals.take(k));
    p.advanced(h).1
}

/// Whether the result of round `k` of a pass was taken in.
pub open spec fn round_accepted<T>(
    heap: HeapView<T>,
    pass: PassView,
    evals: Seq<Evaluation<T>>,
    k: int,
) -> bool {
    let (h, p) = replay(heap, pass, evals.take(k));
    match p.advanced(h).1 {
        None => false,
        Some((d, _)) => h.evaluation_outcome(d, evals[k].reads) is Ok,
    }
}

/// What holds after the first `n` rounds of a pass in which every round
/// found a formula to evaluate.
spec fn values_after<T>(
    before: HeapView<T>,
    origin: Pointer,
    evals: Seq<Evaluation<T>>,
    n: int,
) -> bool {
    let start = PassView::start(origin, before.entry(origin).dependents);
    let (h, p) = replay(before, start, evals.take(n));
    &&& before.kept_by(h)
    &&& p.origin == origin
    &&& p.report.recomputed.len() == n
    &&& p.report.recomputed.no_duplicates()
    &&& !p.report.recomputed.contains(origin)
    &&& forall|k: int|
        0 <= k < n ==> {
            let d = #[trigger] p.report.recomputed[k];
            &&& before.is_formula(d)
            &&& job_of_round(before, start, evals, k) == Some((d, before.entry(d).value->closure))
            &&& h.entry(d).value.current() == if round_accepted(before, start, evals, k) {
                evals[k].value
            } else {
                before.entry(d).value.current()
            }
        }
    &&& forall|q: Pointer|
        before.contains(q) && !p.report.recomputed.contains(q) ==> h.entry(q).value
            == before.entry(q).value
}

proof fn lemma_values_after<T>(
    before: HeapView<T>,
    origin: Pointer,
    evals: Seq<Evaluation<T>>,
    n: int,
)
    requires
        before.contains(origin),
        0 <= n <= evals.len(),
        forall|k: int|
            0 <= k < evals.len() ==> (#[trigger] job_of_round(
                before,
                PassView::start(origin, before.entry(origin).dependents),
                evals,
                k,
            )) is Some,
    ensures
        values_after(before, origin, evals, n),
    decreases n,
{
    let start = PassView::start(origin, before.entry(origin).dependents);
    if n == 0 {
        assert(evals.take(0) =~= Seq::empty());
        lemma_kept_chain(before, before, before);
    } else {
        lemma_values_after(before, origin, evals, n - 1);
        let e = evals[n - 1];
        let (hm, pm) = replay(before, start, evals.take(n - 1));
        assert(evals.take(n) =~= evals.take(n - 1).push(e));
        crate::propagate::lemma_replay_push(before, start, evals.take(n - 1), e);
        let (h, p) = replay(before, start, evals.take(n));
        assert((h, p) == round(hm, pm, e));
        crate::propagate::lemma_advanced(pm, hm);
        lemma_round_kept(hm, pm, e);
        lemma_kept_chain(before, hm, h);
        lemma_kept(before, hm);
        assert(job_of_round(before, start, evals, n - 1) is Some);
        let (d, closure) = pm.advanced(hm).1->0;
        let at = pm.advanced(hm).0;
        assert(p.report.recomputed == at.report.recomputed);
        assert(p.report.recomputed == pm.report.recomputed.push(d));
        assert(p.report.recomputed[n - 1] == d);
        assert forall|i: int, j: int|
            0 <= i < p.report.recomputed.len() && 0 <= j < p.report.recomputed.len() && i
                != j implies p.report.recomputed[i] != p.report.recomputed[j] by {
            if i < n - 1 {
                assert(pm.report.recomputed[i] == p.report.recomputed[i]);
            }
            if j < n - 1 {
                assert(pm.report.recomputed[j] == p.report.recomputed[j]);
            }
        }
        if p.report.recomputed.contains(origin) {
            let i = choose|i: int| 0 <= i < n && p.report.recomputed[i] == origin;
            if i < n - 1 {
                assert(pm.report.recomputed[i] == origin);
            }
        }
        if hm.evaluation_outcome(d, e.reads) is Ok {
            lemma_evaluated_kept(hm, d, e.value, e.reads);
        }
        assert forall|k: int| 0 <= k < n implies {
            let dk = #[trigger] p.report.recomputed[k];
            &&& before.is_formula(dk)
            &&& job_of_round(before, start, evals, k) == Some((dk, before.entry(dk).value->closure))
            &&& h.entry(dk).value.current() == if round_accepted(before, start, evals, k) {
                evals[k].value
            } else {
                before.entry(dk).value.current()
            }
        } by {
            let dk = p.report.recomputed[k];
            if k < n - 1 {
                assert(pm.report.recomputed[k] == dk);
                assert(dk != d);
                assert(hm.contains(dk));
            } else {
                assert(dk == d);
                assert(!pm.report.recomputed.contains(d));
            }
        }
        assert forall|q: Pointer|
            before.contains(q) && !p.report.recomputed.contains(q) implies h.entry(q).value
            == before.entry(q).value by {
            assert(q != d);
            if pm.report.recomputed.contains(q) {
                let i = choose|i: int| 0 <= i < n - 1 && pm.report.recomputed[i] == q;
                assert(p.report.recomputed[i] == q);
            }
            assert(hm.contains(q));
        }
    }
}

/// What a pass leaves in the caches, whatever the registry answered.
///
/// Every round evaluated one formula, and no formula twice. A formula
/// whose result was taken in holds the value its evaluation returned; one
/// whose result was refused, and every formula the pass did not reach,
/// holds the value it had before.
pub proof fn lemma_pass_values<T: PartialEq, F: Fn(ClosurePointer, &Heap<T>) -> (T, Vec<Pointer>)>(
    evaluate: F,
    before: HeapView<T>,
    origin: Pointer,
    evals: Seq<Evaluation<T>>,
    after: HeapView<T>,
    report: ReportView,
)
    requires
        before.contains(origin),
        pass_of(
            evaluate,
            before,
            PassView::start(origin, before.entry(origin).dependents),
            evals,
            after,
            report,
        ),
    ensures
        report.recomputed.len() == evals.len(),
        report.recomputed.no_duplicates(),
        !report.recomputed.contains(origin),
        forall|k: int|
            0 <= k < evals.len() ==> {
                let d = #[trigger] report.recomputed[k];
                &&& before.is_formula(d)
                &&& job_of_round(
                    before,
                    PassView::start(origin, before.entry(origin).dependents),
                    evals,
                    k,
                ) == Some((d, before.entry(d).value->closure))
                &&& after.entry(d).value.current() == if round_accepted(
                    before,
                    PassView::start(origin, before.entry(origin).dependents),
                    evals,
                    k,
                ) {
                    evals[k].value
                } else {
                    before.entry(d).value.current()
                }
            },
        forall|q: Pointer|
            before.contains(q) && !report.recomputed.contains(q) ==> after.entry(q).value
                == before.entry(q).value,
{
    let start = PassView::start(origin, before.entry(origin).dependents);
    assert forall|k: int| 0 <= k < evals.len() implies (#[trigger] job_of_round(
        before,
        start,
        evals,
        k,
    )) is Some by {
        assert(crate::propagate::answered(
            evaluate,
            replay(before, start, evals.take(k)).0,
            replay(before, start, evals.take(k)).1,
            evals[k],
        ));
    }
    lemma_values_after(before, origin, evals, evals.len() as int);
    assert(evals.take(evals.len() as int) =~= evals);
    let (h, p) = replay(before, start, evals);
    crate::propagate::lemma_advanced(p, h);
}

/// Whether one of the slots in `changed` listed `x` as a dependent in the
/// heap `before`.
pub open spec fn listed_by_changed<T>(before: HeapView<T>, changed: Seq<Pointer>, x: Pointer) -> bool {
    exists|i: int|
        0 <= i < changed.len() && before.contains(#[trigger] changed[i]) && before.entry(
            changed[i],
        ).dependents.contains(x)
}

/// What holds of the record of a pass after its first `n` rounds.
spec fn reach_after<T>(
    before: HeapView<T>,
    origin: Pointer,
    evals: Seq<Evaluation<T>>,
    n: int,
) -> bool {
    let start = PassView::start(origin, before.entry(origin).dependents);
    let (h, p) = replay(before, start, evals.take(n));
    &&& p.report.changed.len() > 0
    &&& p.report.changed[0] == origin
    &&& forall|i: int|
        0 < i < p.report.changed.len() ==> p.report.recomputed.contains(
            #[trigger] p.report.changed[i],
        )
    &&& forall|j: int|
        0 <= j < p.pending.len() ==> p.visited(#[trigger] p.pending[j]) || listed_by_changed(
            before,
            p.report.changed,
            p.pending[j],
        )
    &&& forall|k: int|
        0 <= k < n ==> listed_by_changed(
            before,
            p.report.changed,
            #[trigger] p.report.recomputed[k],
        )
    &&& forall|s: Pointer, x: Pointer|
        before.contains(s) && !p.visited(x) ==> (#[trigger] h.entry(s).dependents.contains(x)
            <==> before.entry(s).dependents.contains(x))
    &&& forall|k: int|
        0 <= k < n ==> (p.report.changed.contains(#[trigger] p.report.recomputed[k])
            <==> round_accepted(before, start, evals, k) && evals[k].changed)
}

/// A slot stays listed when the list of changed slots grows.
proof fn lemma_listed_grows<T>(before: HeapView<T>, changed: Seq<Pointer>, d: Pointer, x: Pointer)
    requires
        listed_by_changed(before, changed, x),
    ensures
        listed_by_changed(before, changed.push(d), x),
{
    let i = choose|i: int|
        0 <= i < changed.len() && before.contains(#[trigger] changed[i]) && before.entry(
            changed[i],
        ).dependents.contains(x);
    assert(changed.push(d)[i] == changed[i]);
}

proof fn lemma_reach_after<T>(
    before: HeapView<T>,
    origin: Pointer,
    evals: Seq<Evaluation<T>>,
    n: int,
)
    requires
        before.contains(origin),
        0 <= n <= evals.len(),
        forall|k: int|
            0 <= k < evals.len() ==> (#[trigger] job_of_round(
                before,
                PassView::start(origin, before.entry(origin).dependents),
                evals,
                k,
            )) is Some,
    ensures
        reach_after(before, origin, evals, n),
        values_after(before, origin, evals, n),
    decreases n,
{
    let start = PassView::start(origin, before.entry(origin).dependents);
    lemma_values_after(before, origin, evals, n);
    if n == 0 {
        assert(evals.take(0) =~= Seq::empty());
        assert forall|j: int| 0 <= j < start.pending.len() implies start.visited(#[trigger] start.pending[j])
            || listed_by_changed(before, start.report.changed, start.pending[j]) by {
            assert(start.report.changed[0] == origin);
        }
    } else {
        lemma_reach_after(before, origin, evals, n - 1);
        let e = evals[n - 1];
        let (hm, pm) = replay(before, start, evals.take(n - 1));
        assert(evals.take(n) =~= evals.take(n - 1).push(e));
        crate::propagate::lemma_replay_push(before, start, evals.take(n - 1), e);
        let (h, p) = replay(before, start, evals.take(n));
        assert((h, p) == round(hm, pm, e));
        crate::propagate::lemma_advanced(pm, hm);
        lemma_kept(before, hm);
        lemma_kept(before, h);
        assert(job_of_round(before, start, evals, n - 1) is Some);
        let (d, closure) = pm.advanced(hm).1->0;
        let at = pm.advanced(hm).0;
        let accepted = hm.evaluation_outcome(d, e.reads) is Ok;
        let grows = accepted && e.changed;
        assert(round_accepted(before, start, evals, n - 1) == accepted);
        assert(at.report.recomputed == pm.report.recomputed.push(d));
        assert(at.report.recomputed[n - 1] == d);
        assert(p.report.recomputed == at.report.recomputed);
        assert(hm.contains(d) && h.contains(d) && before.contains(d));
        // where the pass stands after the round
        assert(p.report.changed == if grows {
            pm.report.changed.push(d)
        } else {
            pm.report.changed
        });
        assert(p.pending == if grows {
            at.pending + h.entry(d).dependents
        } else {
            at.pending
        });
        // what was visited stays visited
        assert forall|x: Pointer| pm.visited(x) implies p.visited(x) by {
            if x != origin {
                let i = choose|i: int| 0 <= i < n - 1 && pm.report.recomputed[i] == x;
                assert(p.report.recomputed[i] == x);
            }
        }
        assert(p.visited(d));
        assert forall|x: Pointer| p.visited(x) implies pm.visited(x) || x == d by {
            if x != origin {
                let i = choose|i: int| 0 <= i < n && p.report.recomputed[i] == x;
                if i < n - 1 {
                    assert(pm.report.recomputed[i] == x);
                }
            }
        }
        // the formula of this round was pending, and not dealt with before
        let jd = choose|j: int| 0 <= j < pm.pending.len() && pm.pending[j] == d;
        assert(pm.visited(pm.pending[jd]) || listed_by_changed(
            before,
            pm.report.changed,
            pm.pending[jd],
        ));
        assert(listed_by_changed(before, pm.report.changed, d));
        if grows {
            lemma_listed_grows(before, pm.report.changed, d, d);
        }
        // edges towards slots the pass has not dealt with are as before
        if accepted {
            lemma_evaluated_edges(hm, d, e.value, e.reads);
        }
        assert forall|s: Pointer, x: Pointer| before.contains(s) && !p.visited(x) implies (
        #[trigger] h.entry(s).dependents.contains(x) <==> before.entry(s).dependents.contains(
            x,
        )) by {
            assert(!pm.visited(x));
            assert(x != d);
            assert(hm.contains(s));
            assert(hm.entry(s).dependents.contains(x) <==> before.entry(s).dependents.contains(x));
        }
        // the list of changed slots
        assert forall|i: int| 0 < i < p.report.changed.len() implies p.report.recomputed.contains(
            #[trigger] p.report.changed[i],
        ) by {
            if i < pm.report.changed.len() {
                let y = pm.report.changed[i];
                assert(pm.report.recomputed.contains(y));
                let k = choose|k: int| 0 <= k < n - 1 && pm.report.recomputed[k] == y;
                assert(p.report.recomputed[k] == y);
            } else {
                assert(p.report.changed[i] == d);
                assert(p.report.recomputed[n - 1] == d);
            }
        }
        // what is pending
        assert forall|j: int| 0 <= j < p.pending.len() implies p.visited(#[trigger] p.pending[j])
            || listed_by_changed(before, p.report.changed, p.pending[j]) by {
            let x = p.pending[j];
            if j < at.pending.len() {
                assert(at.pending[j] == x);
                assert(at.pending.contains(x));
                assert(pm.pending.contains(x));
                let j0 = choose|j0: int| 0 <= j0 < pm.pending.len() && pm.pending[j0] == x;
                assert(pm.visited(pm.pending[j0]) || listed_by_changed(
                    before,
                    pm.report.changed,
                    pm.pending[j0],
                ));
                if !pm.visited(x) && grows {
                    lemma_listed_grows(before, pm.report.changed, d, x);
                }
            } else {
                let deps = h.entry(d).dependents;
                assert(deps[j - at.pending.len()] == x);
                assert(deps.contains(x));
                if !p.visited(x) {
                    assert(h.entry(d).dependents.contains(x) <==> before.entry(
                        d,
                    ).dependents.contains(x));
                    let last = p.report.changed.len() - 1;
                    assert(p.report.changed[last] == d);
                }
            }
        }
        // what was evaluated
        assert forall|k: int| 0 <= k < n implies listed_by_changed(
            before,
            p.report.changed,
            #[trigger] p.report.recomputed[k],
        ) by {
            let x = p.report.recomputed[k];
            if k < n - 1 {
                assert(pm.report.recomputed[k] == x);
                assert(listed_by_changed(before, pm.report.changed, pm.report.recomputed[k]));
            }
            if grows {
                lemma_listed_grows(before, pm.report.changed, d, x);
            }
        }
        // which of the evaluated formulas changed
        assert(!pm.report.changed.contains(d)) by {
            if pm.report.changed.contains(d) {
                let i = choose|i: int| 0 <= i < pm.report.changed.len() && pm.report.changed[i] == d;
                if i > 0 {
                    assert(pm.report.recomputed.contains(pm.report.changed[i]));
                }
            }
        }
        assert forall|k: int| 0 <= k < n implies (p.report.changed.contains(
            #[trigger] p.report.recomputed[k],
        ) <==> round_accepted(before, start, evals, k) && evals[k].changed) by {
            let x = p.report.recomputed[k];
            if k < n - 1 {
                assert(pm.report.recomputed[k] == x);
                assert(x != d);
                assert(evals.take(n - 1)[k] == evals[k]);
                assert(pm.report.changed.contains(pm.report.recomputed[k]) <==> round_accepted(
                    before,
                    start,
                    evals,
                    k,
                ) && evals[k].changed);
                if grows {
                    if pm.report.changed.contains(x) {
                        lemma_listed_grows_contains(pm.report.changed, d, x);
                    }
                    if p.report.changed.contains(x) {
                        let i = choose|i: int|
                            0 <= i < p.report.changed.len() && p.report.changed[i] == x;
                        assert(pm.report.changed[i] == x);
                    }
                }
            } else {
                assert(x == d);
                if grows {
                    let last = p.report.changed.len() - 1;
                    assert(p.report.changed[last] == d);
                }
            }
        }
    }
}

/// An element of a list is an element of the list with one more at its end.
proof fn lemma_listed_grows_contains(s: Seq<Pointer>, d: Pointer, x: Pointer)
    requires
        s.contains(x),
    ensures
        s.push(d).contains(x),
{
    let i = choose|i: int| 0 <= i < s.len() && s[i] == x;
    assert(s.push(d)[i] == x);
}

/// How far a pass reaches, whatever the registry answered.
///
/// The list of changed slots starts with the origin; every other slot in it
/// is a formula that was evaluated, had its result taken in and was found to
/// differ. A formula is evaluated only if a slot that changed listed it as a
/// dependent before the pass: behind a formula whose value stayed the same,
/// nothing is evaluated on its account.
pub proof fn lemma_pass_reach<T: PartialEq, F: Fn(ClosurePointer, &Heap<T>) -> (T, Vec<Pointer>)>(
    evaluate: F,
    before: HeapView<T>,
    origin: Pointer,
    evals: Seq<Evaluation<T>>,
    after: HeapView<T>,
    report: ReportView,
)
    requires
        before.contains(origin),
        pass_of(
            evaluate,
            before,
            PassView::start(origin, before.entry(origin).dependents),
            evals,
            after,
            report,
        ),
    ensures
        report.recomputed.len() == evals.len(),
        report.changed.len() > 0,
        report.changed[0] == origin,
        forall|i: int|
            0 < i < report.changed.len() ==> report.recomputed.contains(
                #[trigger] report.changed[i],
            ),
        forall|k: int|
            0 <= k < evals.len() ==> listed_by_changed(
                before,
                report.changed,
                #[trigger] report.recomputed[k],
            ),
        forall|k: int|
            0 <= k < evals.len() ==> (report.changed.contains(#[trigger] report.recomputed[k])
                <==> round_accepted(
                before,
                PassView::start(origin, before.entry(origin).dependents),
                evals,
                k,
            ) && evals[k].changed),
{
    let start = PassView::start(origin, before.entry(origin).dependents);
    assert forall|k: int| 0 <= k < evals.len() implies (#[trigger] job_of_round(
        before,
        start,
        evals,
        k,
    )) is Some by {
        assert(crate::propagate::answered(
            evaluate,
            replay(before, start, evals.take(k)).0,
            replay(before, start, evals.take(k)).1,
            evals[k],
        ));
    }
    lemma_reach_after(before, origin, evals, evals.len() as int);
    assert(evals.take(evals.len() as int) =~= evals);
    let (h, p) = replay(before, start, evals);
    crate::propagate::lemma_advanced(p, h);
}

} // verus!
