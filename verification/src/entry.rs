//! The record the heap keeps for one slot.

use vstd::prelude::*;
use crate::pointer::{DynamicProperty, Pointer};
use crate::value::HeapValue;

verus! {

/// Everything stored for one slot.
#[derive(Debug)]
pub struct HeapData<T> {
    /// The stored or computed value.
    pub value: HeapValue<T>,
    /// The slots whose formula reads this one. A change here has to reach
    /// each of them.
    pub dependents: Vec<Pointer>,
    /// Renderer bindings that follow this slot.
    pub ui_properties: Vec<DynamicProperty>,
}

/// The mathematical content of a [`HeapData`].
#[verifier::ext_equal]
pub struct EntryView<T> {
    pub value: HeapValue<T>,
    pub dependents: Seq<Pointer>,
    pub ui_properties: Seq<DynamicProperty>,
}

impl<T> EntryView<T> {
    /// An entry that nothing depends on and nothing is bound to.
    pub open spec fn fresh(value: HeapValue<T>) -> EntryView<T> {
        EntryView { value, dependents: Seq::empty(), ui_properties: Seq::empty() }
    }

    /// This entry with another value.
    pub open spec fn with_value(self, value: HeapValue<T>) -> EntryView<T> {
        EntryView { value, ..self }
    }

    /// This entry with another list of dependents.
    pub open spec fn with_dependents(self, dependents: Seq<Pointer>) -> EntryView<T> {
        EntryView { dependents, ..self }
    }

    /// This entry with another list of bindings.
    pub open spec fn with_ui_properties(self, ui_properties: Seq<DynamicProperty>) -> EntryView<T> {
        EntryView { ui_properties, ..self }
    }
}

impl<T> View for HeapData<T> {
    type V = EntryView<T>;

    open spec fn view(&self) -> EntryView<T> {
        EntryView {
            value: self.value,
            dependents: self.dependents@,
            ui_properties: self.ui_properties@,
        }
    }
}

impl<T> HeapData<T> {
    /// Wraps a value into an entry with no dependents and no bindings.
    pub fn new(value: HeapValue<T>) -> (r: HeapData<T>)
        ensures
            r@ == EntryView::fresh(value),
    {
        HeapData { value, dependents: Vec::new(), ui_properties: Vec::new() }
    }
}

} // verus!
