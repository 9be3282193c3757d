//! Reading values, and keeping the edges and bindings of single slots.

use vstd::prelude::*;
use crate::edges::{detach, detached, link, linked, unlink, unlinked};
use crate::heap::{Heap, HeapView};
use crate::pointer::{DynamicProperty, LookupError, Pointer};

verus! {

impl<T> HeapView<T> {
    /// What reading through `p` yields: the stored value of a plain slot, the
    /// cached value of a formula.
    pub open spec fn read(self, p: Pointer) -> Result<T, LookupError> {
        match self.lookup(p) {
            Ok(e) => Ok(e.value.current()),
            Err(err) => Err(err),
        }
    }

    /// Whether `p` resolves to a formula.
    pub open spec fn is_formula(self, p: Pointer) -> bool {
        self.contains(p) && self.entry(p).value is Formula
    }

    /// Whether `d` may be recorded as a dependent of `p`, and why not: both
    /// have to resolve, `d` has to be a formula, and no slot depends on
    /// itself.
    pub open spec fn add_dependent_outcome(self, p: Pointer, d: Pointer) -> Result<
        (),
        LookupError,
    > {
        if self.lookup(p) is Err {
            Err(self.lookup(p)->Err_0)
        } else if p == d {
            Err(LookupError::CycleDetected)
        } else if self.lookup(d) is Err {
            Err(self.lookup(d)->Err_0)
        } else if !(self.entry(d).value is Formula) {
            Err(LookupError::TypeMismatch)
        } else {
            Ok(())
        }
    }

    /// Whether a write to `p` is accepted, and why not: `p` has to resolve
    /// to a plain slot.
    pub open spec fn write_outcome(self, p: Pointer) -> Result<(), LookupError> {
        if self.lookup(p) is Err {
            Err(self.lookup(p)->Err_0)
        } else if self.entry(p).value is Formula {
            Err(LookupError::TypeMismatch)
        } else {
            Ok(())
        }
    }

    /// The heap with the dependents of the live pointer `p` replaced.
    pub open spec fn with_dependents(self, p: Pointer, deps: Seq<Pointer>) -> HeapView<T> {
        self.with_entry(p, self.entry(p).with_dependents(deps))
    }

    /// The heap with the bindings of the live pointer `p` replaced.
    pub open spec fn with_ui_properties(self, p: Pointer, props: Seq<DynamicProperty>) -> HeapView<
        T,
    > {
        self.with_entry(p, self.entry(p).with_ui_properties(props))
    }
}

impl<T> Heap<T> {
    /// The current value of `p`. For a formula this is the cached value;
    /// reading never triggers an evaluation.
    pub fn read(&self, p: Pointer) -> (r: Result<&T, LookupError>)
        ensures
            match r {
                Ok(v) => self@.read(p) == Ok::<T, LookupError>(*v),
                Err(err) => self@.read(p) == Err::<T, LookupError>(err),
            },
    {
        match self.get(p) {
            Ok(e) => Ok(e.value.read()),
            Err(err) => Err(err),
        }
    }

    /// Records that the formula `d` reads `p`, so that a change of `p`
    /// reaches `d`. Adding an edge that is already there changes nothing. A
    /// refused call changes nothing.
    pub fn add_dependent(&mut self, p: Pointer, d: Pointer) -> (r: Result<(), LookupError>)
        ensures
            r == old(self)@.add_dependent_outcome(p, d),
            r is Ok ==> final(self)@ == old(self)@.with_dependents(
                p,
                linked(old(self)@.entry(p).dependents, d),
            ),
            r is Err ==> final(self)@ == old(self)@,
    {
        if let Err(err) = self.get(p) {
            return Err(err);
        }
        if p == d {
            return Err(LookupError::CycleDetected);
        }
        match self.get(d) {
            Err(err) => {
                return Err(err);
            },
            Ok(e) => {
                if let Err(err) = e.value.closure() {
                    return Err(err);
                }
            },
        }
        match self.get_mut(p) {
            Ok(e) => {
                link(&mut e.dependents, d);
                Ok(())
            },
            Err(err) => Err(err),
        }
    }

    /// Forgets that `d` depends on `p`. `d` itself need not resolve any
    /// more: this is how a dead edge is dropped.
    pub fn remove_dependent(&mut self, p: Pointer, d: Pointer) -> (r: Result<(), LookupError>)
        ensures
            match old(self)@.lookup(p) {
                Ok(e) => r is Ok && final(self)@ == old(self)@.with_dependents(
                    p,
                    unlinked(e.dependents, d),
                ),
                Err(err) => r == Err::<(), LookupError>(err) && final(self)@ == old(self)@,
            },
    {
        match self.get_mut(p) {
            Ok(e) => {
                unlink(&mut e.dependents, d);
                Ok(())
            },
            Err(err) => Err(err),
        }
    }

    /// Attaches a renderer binding to `p`, after those already there.
    pub fn attach_property(&mut self, p: Pointer, binding: DynamicProperty) -> (r: Result<
        (),
        LookupError,
    >)
        ensures
            match old(self)@.lookup(p) {
                Ok(e) => r is Ok && final(self)@ == old(self)@.with_ui_properties(
                    p,
                    e.ui_properties.push(binding),
                ),
                Err(err) => r == Err::<(), LookupError>(err) && final(self)@ == old(self)@,
            },
    {
        match self.get_mut(p) {
            Ok(e) => {
                e.ui_properties.push(binding);
                Ok(())
            },
            Err(err) => Err(err),
        }
    }

    /// Detaches from `p` every binding that carries `id`.
    pub fn detach_property(&mut self, p: Pointer, id: u64) -> (r: Result<(), LookupError>)
        ensures
            match old(self)@.lookup(p) {
                Ok(e) => r is Ok && final(self)@ == old(self)@.with_ui_properties(
                    p,
                    detached(e.ui_properties, id),
                ),
                Err(err) => r == Err::<(), LookupError>(err) && final(self)@ == old(self)@,
            },
    {
        match self.get_mut(p) {
            Ok(e) => {
                detach(&mut e.ui_properties, id);
                Ok(())
            },
            Err(err) => Err(err),
        }
    }
}

} // verus!
