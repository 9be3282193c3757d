//! Taking in the result of one evaluation of a formula: the dependency
//! edges are brought in line with what the evaluation read, and the cache is
//! replaced.

use vstd::prelude::*;
use vstd::std_specs::cmp::PartialEqSpec;
use crate::edges::{link, linked, list_contains, unlink, unlinked};
use crate::heap::{Heap, HeapView, SlotView};
use crate::pointer::{LookupError, Pointer};

verus! {

impl<T> SlotView<T> {
    /// This position after the formula `d` was evaluated: where the
    /// evaluation read the occupant, `d` is among its dependents; where it
    /// did not, `d` is not.
    pub open spec fn reconciled(self, wanted: bool, d: Pointer) -> SlotView<T> {
        match self.entry {
            None => self,
            Some(e) => SlotView {
                generation: self.generation,
                entry: Some(
                    e.with_dependents(
                        if wanted {
                            linked(e.dependents, d)
                        } else {
                            unlinked(e.dependents, d)
                        },
                    ),
                ),
            },
        }
    }
}

impl<T> HeapView<T> {
    /// Whether the formula `d` may have read `r`, and why not: a formula
    /// that reads itself is refused, and so is a read of a slot that does
    /// not resolve.
    pub open spec fn read_outcome(self, d: Pointer, r: Pointer) -> Result<(), LookupError> {
        if r == d {
            Err(LookupError::CycleDetected)
        } else if self.lookup(r) is Err {
            Err(self.lookup(r)->Err_0)
        } else {
            Ok(())
        }
    }

    /// The first objection to the reads an evaluation of `d` reported, in
    /// the order of the report.
    pub open spec fn reads_outcome(self, d: Pointer, reads: Seq<Pointer>) -> Result<
        (),
        LookupError,
    >
        decreases reads.len(),
    {
        if reads.len() == 0 {
            Ok(())
        } else {
            match self.reads_outcome(d, reads.drop_last()) {
                Err(err) => Err(err),
                Ok(()) => self.read_outcome(d, reads.last()),
            }
        }
    }

    /// Whether the result of an evaluation of `d` is taken in, and why not:
    /// `d` has to resolve to a formula, and the reads have to be acceptable.
    pub open spec fn evaluation_outcome(self, d: Pointer, reads: Seq<Pointer>) -> Result<
        (),
        LookupError,
    > {
        if self.lookup(d) is Err {
            Err(self.lookup(d)->Err_0)
        } else if !(self.entry(d).value is Formula) {
            Err(LookupError::TypeMismatch)
        } else {
            self.reads_outcome(d, reads)
        }
    }

    /// The heap with the edges towards `d` brought in line with `reads`:
    /// every entry that was read lists `d`, no other entry does. Edges
    /// towards other slots stay as they are, in their order.
    pub open spec fn reconciled(self, d: Pointer, reads: Seq<Pointer>) -> HeapView<T> {
        HeapView {
            slots: Seq::new(
                self.slots.len(),
                |i: int| self.slots[i].reconciled(reads.contains(self.pointer_at(i)), d),
            ),
            free: self.free,
        }
    }

    /// The heap with the value of the live pointer `p` replaced; the slot
    /// keeps its kind.
    pub open spec fn with_current(self, p: Pointer, value: T) -> HeapView<T> {
        self.with_entry(p, self.entry(p).with_value(self.entry(p).value.with_current(value)))
    }

    /// The heap after the evaluation of `d` that returned `value` and read
    /// `reads` was taken in.
    pub open spec fn evaluated(self, d: Pointer, value: T, reads: Seq<Pointer>) -> HeapView<T> {
        self.reconciled(d, reads).with_current(d, value)
    }
}

impl<T> Heap<T> {
    /// The first objection to the reads an evaluation of `d` reported.
    pub fn check_reads(&self, d: Pointer, reads: &Vec<Pointer>) -> (r: Result<(), LookupError>)
        ensures
            r == self@.reads_outcome(d, reads@),
    {
        let mut k: usize = 0;
        assert(reads@.take(0) =~= Seq::empty());
        while k < reads.len()
            invariant
                k <= reads.len(),
                self@.reads_outcome(d, reads@.take(k as int)) is Ok,
            decreases reads.len() - k,
        {
            let x = reads[k];
            proof {
                assert(reads@.take(k + 1).drop_last() =~= reads@.take(k as int));
                assert(reads@.take(k + 1).last() == x);
            }
            if x == d {
                proof {
                    lemma_reads_refused_early(self@, d, reads@, k + 1);
                }
                return Err(LookupError::CycleDetected);
            }
            if let Err(err) = self.get(x) {
                proof {
                    lemma_reads_refused_early(self@, d, reads@, k + 1);
                }
                return Err(err);
            }
            k += 1;
        }
        assert(reads@.take(k as int) =~= reads@);
        Ok(())
    }

    /// Brings the edges towards `d` in line with `reads`.
    fn reconcile(&mut self, d: Pointer, reads: &Vec<Pointer>)
        ensures
            final(self)@ == old(self)@.reconciled(d, reads@),
    {
        let ghost before = self@;
        let n = self.slot_count();
        let mut i: usize = 0;
        while i < n
            invariant
                i <= n,
                n == before.slots.len(),
                self@.slots.len() == n,
                self@.free == before.free,
                forall|j: int|
                    0 <= j < i ==> self@.slots[j] == before.slots[j].reconciled(
                        reads@.contains(before.pointer_at(j)),
                        d,
                    ),
                forall|j: int| i <= j < n ==> self@.slots[j] == before.slots[j],
            decreases n - i,
        {
            if let Some(q) = self.pointer_at(i) {
                let wanted = list_contains(reads, q);
                if let Ok(e) = self.get_mut(q) {
                    if wanted {
                        link(&mut e.dependents, d);
                    } else {
                        unlink(&mut e.dependents, d);
                    }
                }
            }
            i += 1;
        }
        assert(self@.slots =~= before.reconciled(d, reads@).slots);
    }
}

impl<T: PartialEq> Heap<T> {
    /// Takes in the result of one evaluation of the formula `d`: `value` is
    /// what the closure returned, `reads` the slots it read.
    ///
    /// The edges are reconciled first, so that exactly the slots in `reads`
    /// list `d` as a dependent; then `value` becomes the cached value. The
    /// result says whether the new value differs from the one it replaces,
    /// which decides whether the change travels on. A refused evaluation
    /// changes nothing.
    pub fn apply_evaluation(&mut self, d: Pointer, value: T, reads: &Vec<Pointer>) -> (r: Result<
        bool,
        LookupError,
    >)
        ensures
            match old(self)@.evaluation_outcome(d, reads@) {
                Err(err) => r == Err::<bool, LookupError>(err) && final(self)@ == old(self)@,
                Ok(()) => r is Ok && final(self)@ == old(self)@.evaluated(d, value, reads@) && (
                T::obeys_eq_spec() ==> r->Ok_0 == !value.eq_spec(
                    &old(self)@.entry(d).value.current(),
                )),
            },
    {
        match self.get(d) {
            Err(err) => {
                return Err(err);
            },
            Ok(e) => {
                if let Err(err) = e.value.closure() {
                    return Err(err);
                }
            },
        }
        if let Err(err) = self.check_reads(d, reads) {
            return Err(err);
        }
        let ghost before = self@;
        self.reconcile(d, reads);
        match self.get_mut(d) {
            Ok(e) => {
                let changed = !(value == *e.value.read());
                e.value.rebind(value);
                Ok(changed)
            },
            Err(err) => Err(err),
        }
    }
}

/// Once a prefix of the reads is refused, the whole list is refused for the
/// same reason.
proof fn lemma_reads_refused_early<T>(h: HeapView<T>, d: Pointer, reads: Seq<Pointer>, k: int)
    requires
        0 <= k <= reads.len(),
        h.reads_outcome(d, reads.take(k)) is Err,
    ensures
        h.reads_outcome(d, reads) == h.reads_outcome(d, reads.take(k)),
    decreases reads.len() - k,
{
    if k < reads.len() {
        assert(reads.take(k + 1).drop_last() =~= reads.take(k));
        lemma_reads_refused_early(h, d, reads, k + 1);
    } else {
        assert(reads.take(k) =~= reads);
    }
}

} // verus!
