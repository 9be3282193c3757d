//! The arena: slots addressed by generational pointers.

use vstd::prelude::*;
use crate::edges::list_contains;
use crate::entry::{EntryView, HeapData};
use crate::pointer::{LookupError, Pointer};
use crate::value::HeapValue;

verus! {

/// One position of the arena, occupied or vacant.
#[derive(Debug)]
struct Slot<T> {
    generation: u64,
    entry: Option<HeapData<T>>,
}

/// The mathematical content of one position of the arena.
#[verifier::ext_equal]
pub struct SlotView<T> {
    /// How many times the position has been reused.
    pub generation: u64,
    /// The entry stored there, if the position is occupied.
    pub entry: Option<EntryView<T>>,
}

/// The mathematical content of a [`Heap`].
#[verifier::ext_equal]
pub struct HeapView<T> {
    /// Every position ever allocated, in order of first allocation.
    pub slots: Seq<SlotView<T>>,
    /// Vacant positions waiting to be reused; the last one is reused first.
    pub free: Seq<usize>,
}

impl<T> Slot<T> {
    spec fn view(self) -> SlotView<T> {
        SlotView {
            generation: self.generation,
            entry: match self.entry {
                Some(e) => Some(e@),
                None => None,
            },
        }
    }
}

impl<T> HeapView<T> {
    /// The heap nothing was ever allocated in.
    pub open spec fn empty() -> HeapView<T> {
        HeapView { slots: Seq::empty(), free: Seq::empty() }
    }

    /// Whether position `i` exists, is vacant and may be handed out again.
    pub open spec fn reusable(self, i: usize) -> bool {
        &&& i < self.slots.len()
        &&& self.slots[i as int].entry is None
        &&& self.slots[i as int].generation < u64::MAX
    }

    /// The invariant of the arena: positions can be counted by a machine
    /// word, and the free list names distinct positions, each of them vacant
    /// and not yet worn out.
    pub open spec fn wf(self) -> bool {
        &&& self.slots.len() <= usize::MAX
        &&& forall|k: int| 0 <= k < self.free.len() ==> self.reusable(#[trigger] self.free[k])
        &&& self.free.no_duplicates()
    }

    /// Whether an allocation finds a position: one to reuse, or room for a
    /// new one.
    pub open spec fn has_room(self) -> bool {
        self.free.len() > 0 || self.slots.len() < usize::MAX
    }

    /// Whether `p` resolves: its position is occupied by the very occupant
    /// the pointer was issued for.
    pub open spec fn contains(self, p: Pointer) -> bool {
        &&& p.index < self.slots.len()
        &&& self.slots[p.index as int].generation == p.generation
        &&& self.slots[p.index as int].entry is Some
    }

    /// The entry `p` resolves to. Meaningful where `contains(p)`.
    pub open spec fn entry(self, p: Pointer) -> EntryView<T> {
        self.slots[p.index as int].entry->0
    }

    /// Whether `p` was ever handed out by this heap, be it live or freed.
    pub open spec fn issued(self, p: Pointer) -> bool {
        &&& p.index < self.slots.len()
        &&& p.generation <= self.slots[p.index as int].generation
    }

    /// The pointer that resolves to position `i` while it is occupied.
    pub open spec fn pointer_at(self, i: int) -> Pointer {
        Pointer { index: i as usize, generation: self.slots[i].generation }
    }

    /// The live pointer of position `i`, if the position exists and is
    /// occupied.
    pub open spec fn occupant(self, i: int) -> Option<Pointer> {
        if 0 <= i < self.slots.len() && self.slots[i].entry is Some {
            Some(self.pointer_at(i))
        } else {
            None
        }
    }

    /// The outcome of resolving `p`.
    pub open spec fn lookup(self, p: Pointer) -> Result<EntryView<T>, LookupError> {
        if p.index >= self.slots.len() {
            Err(LookupError::NotFound)
        } else if !self.contains(p) {
            Err(LookupError::Stale)
        } else {
            Ok(self.entry(p))
        }
    }

    /// The pointer the next allocation returns.
    pub open spec fn next_pointer(self) -> Pointer {
        if self.free.len() > 0 {
            let i = self.free.last();
            Pointer { index: i, generation: (self.slots[i as int].generation + 1) as u64 }
        } else {
            Pointer { index: self.slots.len() as usize, generation: 0 }
        }
    }

    /// The heap after allocating `e`: the most recently freed position is
    /// reused under the next generation; with none to reuse, a new position
    /// is added.
    pub open spec fn allocated(self, e: EntryView<T>) -> HeapView<T> {
        let p = self.next_pointer();
        let slot = SlotView { generation: p.generation, entry: Some(e) };
        if self.free.len() > 0 {
            HeapView { slots: self.slots.update(p.index as int, slot), free: self.free.drop_last() }
        } else {
            HeapView { slots: self.slots.push(slot), free: self.free }
        }
    }

    /// The heap with the entry of the live pointer `p` replaced by `e`.
    pub open spec fn with_entry(self, p: Pointer, e: EntryView<T>) -> HeapView<T> {
        HeapView {
            slots: self.slots.update(
                p.index as int,
                SlotView { generation: p.generation, entry: Some(e) },
            ),
            free: self.free,
        }
    }

    /// Whether the occupant of position `i` lists `p` among its dependents.
    pub open spec fn lists(self, i: int, p: Pointer) -> bool {
        &&& 0 <= i < self.slots.len()
        &&& self.slots[i].entry is Some
        &&& self.slots[i].entry->0.dependents.contains(p)
    }

    /// Whether some entry lists `p` among its dependents.
    pub open spec fn referenced(self, p: Pointer) -> bool {
        exists|i: int| self.lists(i, p)
    }

    /// Whether freeing `p` is accepted, and why not.
    pub open spec fn free_outcome(self, p: Pointer) -> Result<(), LookupError> {
        match self.lookup(p) {
            Err(e) => Err(e),
            Ok(e) => if e.dependents.len() > 0 || self.referenced(p) {
                Err(LookupError::DanglingDependents)
            } else {
                Ok(())
            },
        }
    }

    /// The heap after freeing the live pointer `p`: the position is vacated
    /// and queued for reuse, unless its generation cannot grow any further.
    pub open spec fn freed(self, p: Pointer) -> HeapView<T> {
        HeapView {
            slots: self.slots.update(
                p.index as int,
                SlotView { generation: p.generation, entry: None },
            ),
            free: if p.generation < u64::MAX {
                self.free.push(p.index)
            } else {
                self.free
            },
        }
    }
}

/// An arena of entries addressed by [`Pointer`]s. It owns every entry and is
/// the only place where entries are created and destroyed.
#[derive(Debug)]
pub struct Heap<T> {
    slots: Vec<Slot<T>>,
    free: Vec<usize>,
}

impl<T> View for Heap<T> {
    type V = HeapView<T>;

    closed spec fn view(&self) -> HeapView<T> {
        HeapView {
            slots: Seq::new(self.slots@.len(), |i: int| self.slots@[i].view()),
            free: self.free@,
        }
    }
}

impl<T> Heap<T> {
    /// Holds of every heap a program can get hold of.
    #[verifier::type_invariant]
    pub open spec fn inv(&self) -> bool {
        self@.wf()
    }

    /// An empty heap.
    pub fn new() -> (r: Heap<T>)
        ensures
            r@ == HeapView::<T>::empty(),
            r.inv(),
    {
        let r = Heap { slots: Vec::new(), free: Vec::new() };
        assert(r@.slots =~= Seq::empty());
        r
    }

    /// Stores `value` in a new entry, with no dependents and no bindings, and
    /// returns the pointer to it. The pointer was never handed out before.
    pub fn allocate(&mut self, value: HeapValue<T>) -> (p: Pointer)
        ensures
            p == old(self)@.next_pointer(),
            final(self)@ == old(self)@.allocated(EntryView::fresh(value)),
            !old(self)@.issued(p),
            old(self)@.has_room(),
            final(self).inv(),
    {
        proof {
            use_type_invariant(&*self);
        }
        let ghost before = self@;
        let entry = value.into_heap_data();
        if self.free.len() > 0 {
            // The list is taken out while it changes, so that the heap is
            // well formed whenever it is whole.
            let mut free: Vec<usize> = Vec::new();
            core::mem::swap(&mut self.free, &mut free);
            let i: usize = free[free.len() - 1];
            assert(before.reusable(before.free[before.free.len() - 1]));
            free.pop();
            core::mem::swap(&mut self.free, &mut free);
            let g: u64 = self.slots[i].generation;
            self.slots[i] = Slot { generation: g + 1, entry: Some(entry) };
            assert(self@.slots =~= before.allocated(EntryView::fresh(value)).slots);
            Pointer { index: i, generation: g + 1 }
        } else {
            let i: usize = self.slots.len();
            let mut slots: Vec<Slot<T>> = Vec::new();
            core::mem::swap(&mut self.slots, &mut slots);
            slots.push(Slot { generation: 0, entry: Some(entry) });
            assert(slots@.len() == slots.len());
            core::mem::swap(&mut self.slots, &mut slots);
            assert(self@.slots =~= before.allocated(EntryView::fresh(value)).slots);
            Pointer { index: i, generation: 0 }
        }
    }

    /// Resolves `p`. `NotFound` where the index was never allocated, `Stale`
    /// where the pointer's occupant is gone.
    pub fn get(&self, p: Pointer) -> (r: Result<&HeapData<T>, LookupError>)
        ensures
            match r {
                Ok(e) => self@.lookup(p) == Ok::<EntryView<T>, LookupError>(e@),
                Err(err) => self@.lookup(p) == Err::<EntryView<T>, LookupError>(err),
            },
    {
        if p.index >= self.slots.len() {
            return Err(LookupError::NotFound);
        }
        let slot = &self.slots[p.index];
        if slot.generation != p.generation {
            return Err(LookupError::Stale);
        }
        match &slot.entry {
            Some(e) => Ok(e),
            None => Err(LookupError::Stale),
        }
    }

    /// Resolves `p` for mutation. Whatever the caller writes through the
    /// returned reference becomes the entry of `p`; nothing else changes.
    ///
    /// The arena stays well formed whatever is written. The soundness of the
    /// dependency edges is another matter: a caller who rewrites `dependents`
    /// by hand answers for it, and a pass reports what it then finds.
    pub fn get_mut(&mut self, p: Pointer) -> (r: Result<&mut HeapData<T>, LookupError>)
        ensures
            r is Ok ==> old(self)@.lookup(p) == Ok::<EntryView<T>, LookupError>(r->Ok_0@),
            r is Ok ==> final(self)@ == old(self)@.with_entry(p, final(r->Ok_0)@),
            r is Err ==> old(self)@.lookup(p) == Err::<EntryView<T>, LookupError>(r->Err_0),
            r is Err ==> final(self)@ == old(self)@,
            final(self).inv(),
    {
        proof {
            use_type_invariant(&*self);
        }
        if p.index >= self.slots.len() {
            return Err(LookupError::NotFound);
        }
        if self.slots[p.index].generation != p.generation || self.slots[p.index].entry.is_none() {
            return Err(LookupError::Stale);
        }
        assert(forall|k: int| 0 <= k < self.free@.len() ==> self@.reusable(#[trigger] self.free@[k]));
        assert(forall|k: int| 0 <= k < self.free@.len() ==> self.free@[k] != p.index);
        let ghost before = self@;
        let slot = &mut self.slots[p.index];
        assert(forall|e: HeapData<T>| #[trigger]
            before.with_entry(p, e@).wf());
        match &mut slot.entry {
            Some(e) => Ok(e),
            None => Err(LookupError::Stale),
        }
    }

    /// Whether some entry lists `p` among its dependents.
    pub fn is_referenced(&self, p: Pointer) -> (r: bool)
        ensures
            r == self@.referenced(p),
    {
        let mut i: usize = 0;
        while i < self.slots.len()
            invariant
                i <= self.slots.len(),
                forall|j: int| 0 <= j < i ==> !self@.lists(j, p),
            decreases self.slots.len() - i,
        {
            match &self.slots[i].entry {
                Some(e) => {
                    if list_contains(&e.dependents, p) {
                        assert(self@.lists(i as int, p));
                        return true;
                    }
                },
                None => {},
            }
            i += 1;
        }
        false
    }

    /// Destroys the entry of `p`, with its bindings. Refused with
    /// `DanglingDependents` while the entry still has dependents, or while
    /// some entry still lists `p` as its dependent: edges are never cut
    /// silently. A refused call changes nothing.
    pub fn free(&mut self, p: Pointer) -> (r: Result<(), LookupError>)
        ensures
            r == old(self)@.free_outcome(p),
            r is Ok ==> final(self)@ == old(self)@.freed(p),
            r is Err ==> final(self)@ == old(self)@,
            final(self).inv(),
    {
        proof {
            use_type_invariant(&*self);
        }
        let ghost before = self@;
        match self.get(p) {
            Err(e) => {
                return Err(e);
            },
            Ok(entry) => {
                if entry.dependents.len() > 0 {
                    return Err(LookupError::DanglingDependents);
                }
            },
        }
        if self.is_referenced(p) {
            return Err(LookupError::DanglingDependents);
        }
        assert(forall|k: int| 0 <= k < before.free.len() ==> before.reusable(#[trigger] before.free[k]));
        assert(forall|k: int| 0 <= k < before.free.len() ==> before.free[k] != p.index);
        self.slots[p.index].entry = None;
        assert(self@.slots =~= before.freed(p).slots);
        if p.generation < u64::MAX {
            let mut free: Vec<usize> = Vec::new();
            core::mem::swap(&mut self.free, &mut free);
            free.push(p.index);
            core::mem::swap(&mut self.free, &mut free);
        }
        Ok(())
    }

    /// How many positions were ever allocated. Every live pointer has an
    /// index below this number.
    pub fn slot_count(&self) -> (n: usize)
        ensures
            n == self@.slots.len(),
    {
        self.slots.len()
    }

    /// The live pointer of position `i`, if the position exists and is
    /// occupied. Walking `i` up to `slot_count` visits every live entry once.
    pub fn pointer_at(&self, i: usize) -> (r: Option<Pointer>)
        ensures
            r == self@.occupant(i as int),
    {
        if i < self.slots.len() && self.slots[i].entry.is_some() {
            Some(Pointer { index: i, generation: self.slots[i].generation })
        } else {
            None
        }
    }
}

} // verus!
