//! The value held by one slot: plain data, or a formula with its cache.

use vstd::prelude::*;
use crate::entry::{EntryView, HeapData};
use crate::pointer::{ClosurePointer, LookupError};

verus! {

/// What a slot stores.
#[derive(Debug, PartialEq, Eq)]
pub enum HeapValue<T> {
    /// A value that was set directly.
    Value(T),
    /// A value defined by a closure. `cached_value` is the result of the last
    /// evaluation, kept so that reading never has to evaluate.
    Formula { cached_value: T, closure: ClosurePointer },
}

impl<T> HeapValue<T> {
    /// The value a reader sees: the stored value of a plain slot, the cached
    /// value of a formula.
    pub open spec fn current(self) -> T {
        match self {
            HeapValue::Value(v) => v,
            HeapValue::Formula { cached_value, .. } => cached_value,
        }
    }

    /// The same kind of slot, holding `v`.
    pub open spec fn with_current(self, v: T) -> HeapValue<T> {
        match self {
            HeapValue::Value(_) => HeapValue::Value(v),
            HeapValue::Formula { closure, .. } => HeapValue::Formula { cached_value: v, closure },
        }
    }

    /// A plain value.
    pub fn new(value: T) -> (r: HeapValue<T>)
        ensures
            r == HeapValue::Value(value),
    {
        HeapValue::Value(value)
    }

    /// A formula, with the value its closure currently evaluates to.
    pub fn new_with_formula(cached_value: T, closure: ClosurePointer) -> (r: HeapValue<T>)
        ensures
            r == (HeapValue::Formula { cached_value, closure }),
    {
        HeapValue::Formula { cached_value, closure }
    }

    /// The entry a heap stores for this value when it is first allocated.
    pub fn into_heap_data(self) -> (r: HeapData<T>)
        ensures
            r@ == EntryView::fresh(self),
    {
        HeapData::new(self)
    }

    /// The stored value of a plain slot; a formula is refused.
    pub fn value(&self) -> (r: Result<&T, LookupError>)
        ensures
            match *self {
                HeapValue::Value(v) => r == Ok::<&T, LookupError>(&v),
                HeapValue::Formula { .. } => r == Err::<&T, LookupError>(LookupError::TypeMismatch),
            },
    {
        match self {
            HeapValue::Value(v) => Ok(v),
            HeapValue::Formula { .. } => Err(LookupError::TypeMismatch),
        }
    }

    /// Mutable access to the stored value of a plain slot; a formula is
    /// refused and left as it is.
    pub fn mut_value(&mut self) -> (r: Result<&mut T, LookupError>)
        ensures
            match *old(self) {
                HeapValue::Value(v) => r is Ok && *r->Ok_0 == v
                    && *final(self) == HeapValue::Value(*final(r->Ok_0)),
                HeapValue::Formula { .. } => r == Err::<&mut T, LookupError>(LookupError::TypeMismatch)
                    && *final(self) == *old(self),
            },
    {
        match self {
            HeapValue::Value(v) => Ok(v),
            HeapValue::Formula { .. } => Err(LookupError::TypeMismatch),
        }
    }

    /// Overwrites the stored value of a plain slot; a formula is refused and
    /// left as it is.
    pub fn set_value(&mut self, v: T) -> (r: Result<(), LookupError>)
        ensures
            match *old(self) {
                HeapValue::Value(_) => r is Ok && *final(self) == HeapValue::Value(v),
                HeapValue::Formula { .. } => r == Err::<(), LookupError>(LookupError::TypeMismatch)
                    && *final(self) == *old(self),
            },
    {
        match self {
            HeapValue::Value(s) => {
                *s = v;
                Ok(())
            },
            HeapValue::Formula { .. } => Err(LookupError::TypeMismatch),
        }
    }

    /// The value a reader sees, whatever the kind of slot. Reading never
    /// evaluates anything.
    pub fn read(&self) -> (r: &T)
        ensures
            *r == self.current(),
    {
        match self {
            HeapValue::Value(v) => v,
            HeapValue::Formula { cached_value, .. } => cached_value,
        }
    }

    /// The closure of a formula; a plain slot is refused.
    pub fn closure(&self) -> (r: Result<ClosurePointer, LookupError>)
        ensures
            match *self {
                HeapValue::Value(_) => r == Err::<ClosurePointer, LookupError>(
                    LookupError::TypeMismatch,
                ),
                HeapValue::Formula { closure, .. } => r == Ok::<ClosurePointer, LookupError>(closure),
            },
    {
        match self {
            HeapValue::Value(_) => Err(LookupError::TypeMismatch),
            HeapValue::Formula { closure, .. } => Ok(*closure),
        }
    }

    /// Replaces the value a reader sees and keeps the kind of slot: a formula
    /// keeps its closure and gets a new cache.
    pub fn rebind(&mut self, v: T)
        ensures
            *final(self) == old(self).with_current(v),
    {
        match self {
            HeapValue::Value(s) => {
                *s = v;
            },
            HeapValue::Formula { cached_value, .. } => {
                *cached_value = v;
            },
        }
    }
}

} // verus!
