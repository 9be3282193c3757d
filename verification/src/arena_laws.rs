//! What holds of the arena, proved from the definitions of its operations.

use vstd::prelude::*;
use crate::entry::EntryView;
use crate::heap::HeapView;
use crate::pointer::{LookupError, Pointer};

verus! {

/// One request to the arena.
pub enum Request<T> {
    /// Allocate this entry.
    Allocate(EntryView<T>),
    /// Free this pointer; a refused request leaves the heap as it is.
    Free(Pointer),
}

impl<T> HeapView<T> {
    /// The heap after one request.
    pub open spec fn after(self, request: Request<T>) -> HeapView<T> {
        match request {
            Request::Allocate(e) => self.allocated(e),
            Request::Free(p) => if self.free_outcome(p) is Ok {
                self.freed(p)
            } else {
                self
            },
        }
    }

    /// Whether the arena has room for every allocation among `requests`.
    pub open spec fn has_room_for(self, requests: Seq<Request<T>>) -> bool
        decreases requests.len(),
    {
        if requests.len() == 0 {
            true
        } else {
            &&& self.has_room_for(requests.drop_last())
            &&& requests.last() is Allocate ==> self.after_all(requests.drop_last()).has_room()
        }
    }

    /// The heap after a sequence of requests, in their order.
    pub open spec fn after_all(self, requests: Seq<Request<T>>) -> HeapView<T>
        decreases requests.len(),
    {
        if requests.len() == 0 {
            self
        } else {
            self.after_all(requests.drop_last()).after(requests.last())
        }
    }

    /// Whether `p` was handed out once and does not resolve any more.
    pub open spec fn dead(self, p: Pointer) -> bool {
        self.issued(p) && !self.contains(p)
    }
}

/// Two live pointers to the same position are the same pointer: a position
/// never answers to two generations at once.
pub proof fn lemma_live_pointers_unique<T>(h: HeapView<T>, p: Pointer, q: Pointer)
    requires
        h.contains(p),
        h.contains(q),
        p.index == q.index,
    ensures
        p == q,
{
}

/// A live pointer was issued, and a pointer that resolves, resolves to one
/// entry.
pub proof fn lemma_lookup<T>(h: HeapView<T>, p: Pointer)
    ensures
        h.contains(p) ==> h.issued(p),
        h.contains(p) <==> h.lookup(p) is Ok,
        h.contains(p) ==> h.lookup(p) == Ok::<EntryView<T>, LookupError>(h.entry(p)),
        !h.contains(p) && p.index < h.slots.len() ==> h.lookup(p) == Err::<
            EntryView<T>,
            LookupError,
        >(LookupError::Stale),
        p.index >= h.slots.len() ==> h.lookup(p) == Err::<EntryView<T>, LookupError>(
            LookupError::NotFound,
        ),
{
}

/// What an allocation does: the pointer it returns was never issued before;
/// afterwards it resolves to the new entry, and every other pointer resolves
/// as before. A reused position comes back under the next generation.
pub proof fn lemma_allocated<T>(h: HeapView<T>, e: EntryView<T>)
    requires
        h.wf(),
        h.has_room(),
    ensures
        h.allocated(e).wf(),
        !h.issued(h.next_pointer()),
        h.allocated(e).contains(h.next_pointer()),
        h.allocated(e).entry(h.next_pointer()) == e,
        forall|q: Pointer|
            q != h.next_pointer() ==> h.allocated(e).contains(q) == h.contains(q),
        forall|q: Pointer| h.contains(q) ==> h.allocated(e).entry(q) == h.entry(q),
        forall|q: Pointer| h.allocated(e).issued(q) <==> h.issued(q) || q == h.next_pointer(),
        h.next_pointer().index < h.slots.len() ==> h.next_pointer().generation
            == h.slots[h.next_pointer().index as int].generation + 1,
        h.next_pointer().index >= h.slots.len() ==> h.next_pointer().index == h.slots.len()
            && h.next_pointer().generation == 0,
{
    let p = h.next_pointer();
    let a = h.allocated(e);
    if h.free.len() > 0 {
        let i = h.free.last();
        assert(h.reusable(h.free[h.free.len() - 1]));
        assert forall|k: int| 0 <= k < a.free.len() implies a.reusable(#[trigger] a.free[k]) by {
            assert(a.free[k] == h.free[k]);
            assert(h.reusable(h.free[k]));
        }
    } else {
        assert forall|k: int| 0 <= k < a.free.len() implies a.reusable(#[trigger] a.free[k]) by {
            assert(h.reusable(h.free[k]));
        }
    }
}

/// What freeing a pointer does: it stops resolving, for good; every other
/// pointer resolves as before.
pub proof fn lemma_freed<T>(h: HeapView<T>, p: Pointer)
    requires
        h.wf(),
        h.contains(p),
    ensures
        h.freed(p).wf(),
        h.freed(p).dead(p),
        h.freed(p).lookup(p) == Err::<EntryView<T>, LookupError>(LookupError::Stale),
        forall|q: Pointer| q != p ==> h.freed(p).contains(q) == h.contains(q),
        forall|q: Pointer| q != p && h.contains(q) ==> h.freed(p).entry(q) == h.entry(q),
        forall|q: Pointer| h.freed(p).issued(q) == h.issued(q),
{
    let f = h.freed(p);
    assert forall|k: int| 0 <= k < h.free.len() implies h.free[k] != p.index by {
        assert(h.reusable(h.free[k]));
    }
    assert forall|k: int| 0 <= k < f.free.len() implies f.reusable(#[trigger] f.free[k]) by {
        if k < h.free.len() {
            assert(h.reusable(h.free[k]));
        }
    }
}

/// No request brings a dead pointer back: whatever is allocated and freed
/// afterwards, a pointer that was freed keeps failing as stale, and never
/// reaches the entry that took its place.
pub proof fn lemma_dead_stays_dead<T>(h: HeapView<T>, requests: Seq<Request<T>>, p: Pointer)
    requires
        h.wf(),
        h.has_room_for(requests),
        h.dead(p),
    ensures
        h.after_all(requests).wf(),
        h.after_all(requests).dead(p),
        h.after_all(requests).lookup(p) == Err::<EntryView<T>, LookupError>(LookupError::Stale),
    decreases requests.len(),
{
    if requests.len() > 0 {
        lemma_dead_stays_dead(h, requests.drop_last(), p);
        let mid = h.after_all(requests.drop_last());
        match requests.last() {
            Request::Allocate(e) => {
                lemma_allocated(mid, e);
            },
            Request::Free(q) => {
                if mid.free_outcome(q) is Ok {
                    lemma_freed(mid, q);
                }
            },
        }
    }
}

/// Whatever is allocated and freed, starting from an empty heap, the arena
/// stays well formed, and so no two live pointers ever share a position.
pub proof fn lemma_requests_keep_pointers_unique<T>(
    requests: Seq<Request<T>>,
    p: Pointer,
    q: Pointer,
)
    requires
        HeapView::<T>::empty().has_room_for(requests),
        HeapView::<T>::empty().after_all(requests).contains(p),
        HeapView::<T>::empty().after_all(requests).contains(q),
        p.index == q.index,
    ensures
        p == q,
        HeapView::<T>::empty().after_all(requests).wf(),
{
    lemma_requests_keep_wf(HeapView::<T>::empty(), requests);
}

/// Requests keep the arena well formed.
pub proof fn lemma_requests_keep_wf<T>(h: HeapView<T>, requests: Seq<Request<T>>)
    requires
        h.wf(),
        h.has_room_for(requests),
    ensures
        h.after_all(requests).wf(),
    decreases requests.len(),
{
    if requests.len() > 0 {
        lemma_requests_keep_wf(h, requests.drop_last());
        let mid = h.after_all(requests.drop_last());
        match requests.last() {
            Request::Allocate(e) => {
                lemma_allocated(mid, e);
            },
            Request::Free(q) => {
                if mid.free_outcome(q) is Ok {
                    lemma_freed(mid, q);
                }
            },
        }
    }
}

/// Freeing a pointer and allocating again reuses the position under the
/// next generation, and the old pointer fails as stale instead of reaching
/// the new entry.
pub proof fn lemma_reuse_is_detected<T>(h: HeapView<T>, p: Pointer, e: EntryView<T>)
    requires
        h.wf(),
        h.free_outcome(p) is Ok,
        h.freed(p).has_room(),
    ensures
        h.freed(p).allocated(e).lookup(p) == Err::<EntryView<T>, LookupError>(LookupError::Stale),
        p.generation < u64::MAX ==> h.freed(p).next_pointer() == (Pointer {
            index: p.index,
            generation: (p.generation + 1) as u64,
        }),
        h.freed(p).allocated(e).contains(h.freed(p).next_pointer()),
        h.freed(p).allocated(e).entry(h.freed(p).next_pointer()) == e,
{
    lemma_freed(h, p);
    lemma_allocated(h.freed(p), e);
}

} // verus!
