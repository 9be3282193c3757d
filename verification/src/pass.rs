//! One propagation pass, as a state that is advanced step by step: pick the
//! next formula to evaluate, then record what taking in its result did.
//!
//! The pass itself never evaluates anything. Whoever drives it evaluates the
//! closure it is handed and reports back, so the same steps serve a driver
//! that calls the registry directly and one that has to wait for it.

use vstd::prelude::*;
use std::collections::VecDeque;
use crate::heap::{Heap, HeapView};
use crate::pointer::{ClosurePointer, LookupError, Pointer};

verus! {

/// What a pass did, for whoever has to react to it.
#[derive(Debug)]
pub struct PropagationReport {
    /// Every formula that was evaluated, in the order of evaluation. No
    /// formula is evaluated twice in one pass.
    pub recomputed: Vec<Pointer>,
    /// The slots whose value changed: the origin of the pass first, then
    /// each formula whose new value differs from its old one.
    pub changed: Vec<Pointer>,
    /// The dependents that could not be brought up to date, each with the
    /// reason. The pass goes on past them.
    pub failed: Vec<(Pointer, LookupError)>,
}

/// The mathematical content of a [`PropagationReport`].
#[verifier::ext_equal]
pub struct ReportView {
    pub recomputed: Seq<Pointer>,
    pub changed: Seq<Pointer>,
    pub failed: Seq<(Pointer, LookupError)>,
}

impl View for PropagationReport {
    type V = ReportView;

    open spec fn view(&self) -> ReportView {
        ReportView { recomputed: self.recomputed@, changed: self.changed@, failed: self.failed@ }
    }
}

impl ReportView {
    /// The report of a pass in which nothing happened.
    pub open spec fn empty() -> ReportView {
        ReportView { recomputed: Seq::empty(), changed: Seq::empty(), failed: Seq::empty() }
    }
}

impl PropagationReport {
    /// The report of a pass in which nothing happened.
    pub fn new() -> (r: PropagationReport)
        ensures
            r@ == ReportView::empty(),
    {
        PropagationReport { recomputed: Vec::new(), changed: Vec::new(), failed: Vec::new() }
    }
}

/// A propagation pass in flight.
pub struct Propagation {
    origin: Pointer,
    pending: VecDeque<Pointer>,
    report: PropagationReport,
}

/// The mathematical content of a [`Propagation`].
#[verifier::ext_equal]
pub struct PassView {
    /// The slot whose change started the pass.
    pub origin: Pointer,
    /// The dependents still to be looked at, first in, first out. Dependents
    /// of one slot are queued together, so the pass works level by level.
    pub pending: Seq<Pointer>,
    /// What happened so far.
    pub report: ReportView,
}

impl PassView {
    /// The pass at its start: the dependents of the origin are pending, and
    /// the origin is the one slot known to have changed.
    pub open spec fn start(origin: Pointer, dependents: Seq<Pointer>) -> PassView {
        PassView {
            origin,
            pending: dependents,
            report: ReportView {
                recomputed: Seq::empty(),
                changed: seq![origin],
                failed: Seq::empty(),
            },
        }
    }

    /// Whether the pass has already dealt with `d`: the origin and every
    /// formula evaluated so far.
    pub open spec fn visited(self, d: Pointer) -> bool {
        d == self.origin || self.report.recomputed.contains(d)
    }

    /// The pass with one more failure on record.
    pub open spec fn with_failure(self, d: Pointer, err: LookupError) -> PassView {
        PassView {
            report: ReportView { failed: self.report.failed.push((d, err)), ..self.report },
            ..self
        }
    }

    /// The pass with `d` on record as evaluated.
    pub open spec fn with_recomputed(self, d: Pointer) -> PassView {
        PassView {
            report: ReportView { recomputed: self.report.recomputed.push(d), ..self.report },
            ..self
        }
    }

    /// The pass with `d` on record as changed and its dependents queued
    /// behind what is already pending.
    pub open spec fn with_changed(self, d: Pointer, dependents: Seq<Pointer>) -> PassView {
        PassView {
            pending: self.pending + dependents,
            report: ReportView { changed: self.report.changed.push(d), ..self.report },
            ..self
        }
    }

    /// The pass without the first pending dependent.
    pub open spec fn popped(self) -> PassView {
        PassView { pending: self.pending.drop_first(), ..self }
    }

    /// Whether the dependent `d` is to be evaluated, and why not: it has to
    /// resolve, it has to be a formula, and the pass must not have dealt with
    /// it before. Where it is, the result is the closure to evaluate.
    pub open spec fn job<T>(self, heap: HeapView<T>, d: Pointer) -> Result<
        ClosurePointer,
        LookupError,
    > {
        if heap.lookup(d) is Err {
            Err(heap.lookup(d)->Err_0)
        } else if !(heap.entry(d).value is Formula) {
            Err(LookupError::TypeMismatch)
        } else if self.visited(d) {
            Err(LookupError::CycleDetected)
        } else {
            Ok(heap.entry(d).value->closure)
        }
    }

    /// The pass advanced to its next evaluation: pending dependents that
    /// cannot be evaluated are put on record as failed and passed over; the
    /// first one that can is put on record as evaluated and returned with
    /// its closure. `None` means that nothing is pending any more.
    pub open spec fn advanced<T>(self, heap: HeapView<T>) -> (PassView, Option<
        (Pointer, ClosurePointer),
    >)
        decreases self.pending.len(),
    {
        if self.pending.len() == 0 {
            (self, None)
        } else {
            let d = self.pending.first();
            match self.job(heap, d) {
                Err(err) => self.popped().with_failure(d, err).advanced(heap),
                Ok(closure) => (self.popped().with_recomputed(d), Some((d, closure))),
            }
        }
    }

    /// The pass after the result of evaluating `d` was taken in with the
    /// given outcome: a refusal is put on record; a changed value is put on
    /// record and sends the pass on to the dependents of `d`; an unchanged
    /// value ends the pass at `d`.
    pub open spec fn recorded<T>(
        self,
        heap: HeapView<T>,
        d: Pointer,
        outcome: Result<bool, LookupError>,
    ) -> PassView {
        match outcome {
            Err(err) => self.with_failure(d, err),
            Ok(changed) => if changed && heap.contains(d) {
                self.with_changed(d, heap.entry(d).dependents)
            } else {
                self
            },
        }
    }
}

impl View for Propagation {
    type V = PassView;

    closed spec fn view(&self) -> PassView {
        PassView { origin: self.origin, pending: self.pending@, report: self.report@ }
    }
}

impl Propagation {
    /// Starts the pass for a change of `origin`.
    pub fn begin<T>(heap: &Heap<T>, origin: Pointer) -> (r: Result<Propagation, LookupError>)
        ensures
            match heap@.lookup(origin) {
                Ok(e) => r is Ok && r->Ok_0@ == PassView::start(origin, e.dependents),
                Err(err) => r is Err && r->Err_0 == err,
            },
    {
        match heap.get(origin) {
            Err(err) => Err(err),
            Ok(e) => {
                let mut pass = Propagation {
                    origin,
                    pending: VecDeque::new(),
                    report: PropagationReport::new(),
                };
                pass.report.changed.push(origin);
                pass.enqueue(&e.dependents);
                assert(Seq::<Pointer>::empty() + e.dependents@ =~= e.dependents@);
                assert(pass@.report.changed =~= seq![origin]);
                Ok(pass)
            },
        }
    }

    /// Queues `list` behind what is already pending.
    fn enqueue(&mut self, list: &Vec<Pointer>)
        ensures
            final(self)@ == (PassView { pending: old(self)@.pending + list@, ..old(self)@ }),
    {
        let mut k: usize = 0;
        assert(list@.take(0) =~= Seq::empty());
        assert(self@.pending + Seq::<Pointer>::empty() =~= self@.pending);
        while k < list.len()
            invariant
                k <= list.len(),
                self@ == (PassView {
                    pending: old(self)@.pending + list@.take(k as int),
                    ..old(self)@
                }),
            decreases list.len() - k,
        {
            self.pending.push_back(list[k]);
            assert(list@.take(k + 1) =~= list@.take(k as int).push(list@[k as int]));
            assert((old(self)@.pending + list@.take(k as int)).push(list@[k as int]) =~= old(
                self,
            )@.pending + list@.take(k + 1));
            k += 1;
        }
        assert(list@.take(k as int) =~= list@);
    }

    /// Whether the pass has already dealt with `d`.
    fn has_visited(&self, d: Pointer) -> (r: bool)
        ensures
            r == self@.visited(d),
    {
        d == self.origin || crate::edges::list_contains(&self.report.recomputed, d)
    }

    /// Advances to the next evaluation. The caller evaluates the returned
    /// closure, for the returned formula, against `heap` as it is now.
    pub fn next<T>(&mut self, heap: &Heap<T>) -> (r: Option<(Pointer, ClosurePointer)>)
        ensures
            (final(self)@, r) == old(self)@.advanced(heap@),
    {
        loop
            invariant
                self@.advanced(heap@) == old(self)@.advanced(heap@),
            ensures
                (self@, None::<(Pointer, ClosurePointer)>) == old(self)@.advanced(heap@),
            decreases self@.pending.len(),
        {
            let ghost here = self@;
            match self.pending.pop_front() {
                None => {
                    break;
                },
                Some(d) => {
                    assert(self@.pending =~= here.pending.drop_first());
                    assert(self@ == here.popped());
                    let job: Result<ClosurePointer, LookupError> = match heap.get(d) {
                        Err(err) => Err(err),
                        Ok(e) => match e.value.closure() {
                            Err(err) => Err(err),
                            Ok(closure) => if self.has_visited(d) {
                                Err(LookupError::CycleDetected)
                            } else {
                                Ok(closure)
                            },
                        },
                    };
                    assert(job == here.job(heap@, d));
                    match job {
                        Err(err) => {
                            self.report.failed.push((d, err));
                        },
                        Ok(closure) => {
                            self.report.recomputed.push(d);
                            return Some((d, closure));
                        },
                    }
                },
            }
        }
        None
    }

    /// Records what taking in the result of evaluating `d` did. `outcome` is
    /// what [`Heap::apply_evaluation`] returned for it, and `heap` the heap
    /// after that call.
    pub fn record<T>(&mut self, heap: &Heap<T>, d: Pointer, outcome: Result<bool, LookupError>)
        ensures
            final(self)@ == old(self)@.recorded(heap@, d, outcome),
    {
        match outcome {
            Err(err) => {
                self.report.failed.push((d, err));
            },
            Ok(changed) => {
                if changed {
                    if let Ok(e) = heap.get(d) {
                        self.report.changed.push(d);
                        self.enqueue(&e.dependents);
                    }
                }
            },
        }
    }

    /// Ends the pass and hands out its report.
    pub fn finish(self) -> (r: PropagationReport)
        ensures
            r@ == self@.report,
    {
        self.report
    }
}

} // verus!
