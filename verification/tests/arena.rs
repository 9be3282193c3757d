use reactive_store::entry::HeapData;
use reactive_store::heap::Heap;
use reactive_store::pointer::{ClosurePointer, DynamicProperty, LookupError, Pointer};
use reactive_store::value::HeapValue;

#[test]
fn new_entry_has_no_dependents_and_no_bindings() {
    let e: HeapData<i64> = HeapData::new(HeapValue::new(10));
    assert_eq!(e.value, HeapValue::Value(10));
    assert!(e.dependents.is_empty());
    assert!(e.ui_properties.is_empty());
}

#[test]
fn into_heap_data_wraps_the_value() {
    let closure = ClosurePointer::new(3);
    let e = HeapValue::new_with_formula(30i64, closure).into_heap_data();
    assert_eq!(e.value, HeapValue::Formula { cached_value: 30, closure });
    assert!(e.dependents.is_empty());
    assert!(e.ui_properties.is_empty());
}

#[test]
fn plain_value_accessors() {
    let mut v = HeapValue::new(10i64);
    assert_eq!(v.value(), Ok(&10));
    assert_eq!(v.read(), &10);
    assert_eq!(v.closure(), Err(LookupError::TypeMismatch));
    *v.mut_value().unwrap() = 11;
    assert_eq!(v, HeapValue::Value(11));
    assert_eq!(v.set_value(12), Ok(()));
    assert_eq!(v, HeapValue::Value(12));
    v.rebind(13);
    assert_eq!(v, HeapValue::Value(13));
}

#[test]
fn formula_refuses_plain_access() {
    let closure = ClosurePointer::new(1);
    let mut v = HeapValue::new_with_formula(30i64, closure);
    assert_eq!(v.value(), Err(LookupError::TypeMismatch));
    assert!(matches!(v.mut_value(), Err(LookupError::TypeMismatch)));
    assert_eq!(v.set_value(5), Err(LookupError::TypeMismatch));
    assert_eq!(v, HeapValue::Formula { cached_value: 30, closure });
    assert_eq!(v.read(), &30);
    assert_eq!(v.closure(), Ok(closure));
    v.rebind(31);
    assert_eq!(v, HeapValue::Formula { cached_value: 31, closure });
}

#[test]
fn allocate_hands_out_positions_in_order() {
    let mut heap: Heap<i64> = Heap::new();
    assert_eq!(heap.slot_count(), 0);
    let a = heap.allocate(HeapValue::new(1));
    let b = heap.allocate(HeapValue::new(2));
    assert_eq!(a, Pointer::new(0, 0));
    assert_eq!(b, Pointer::new(1, 0));
    assert_eq!(heap.slot_count(), 2);
    assert_eq!(heap.read(a), Ok(&1));
    assert_eq!(heap.read(b), Ok(&2));
    assert_eq!(heap.pointer_at(0), Some(a));
    assert_eq!(heap.pointer_at(1), Some(b));
    assert_eq!(heap.pointer_at(2), None);
}

#[test]
fn get_of_unknown_index_is_not_found() {
    let mut heap: Heap<i64> = Heap::new();
    heap.allocate(HeapValue::new(1));
    assert!(matches!(heap.get(Pointer::new(1, 0)), Err(LookupError::NotFound)));
    assert!(matches!(heap.get_mut(Pointer::new(7, 0)), Err(LookupError::NotFound)));
    assert_eq!(heap.read(Pointer::new(1, 0)), Err(LookupError::NotFound));
    assert_eq!(heap.free(Pointer::new(1, 0)), Err(LookupError::NotFound));
}

#[test]
fn get_with_wrong_generation_is_stale() {
    let mut heap: Heap<i64> = Heap::new();
    let a = heap.allocate(HeapValue::new(1));
    assert!(matches!(heap.get(Pointer::new(a.index, a.generation + 1)), Err(LookupError::Stale)));
}

#[test]
fn stale_pointer_is_detected_after_reuse() {
    let mut heap: Heap<i64> = Heap::new();
    let a = heap.allocate(HeapValue::new(1));
    assert_eq!(heap.free(a), Ok(()));
    assert!(matches!(heap.get(a), Err(LookupError::Stale)));
    assert_eq!(heap.pointer_at(a.index), None);
    let c = heap.allocate(HeapValue::new(99));
    assert_eq!(c.index, a.index);
    assert_eq!(c.generation, a.generation + 1);
    assert!(matches!(heap.get(a), Err(LookupError::Stale)));
    assert!(matches!(heap.get_mut(a), Err(LookupError::Stale)));
    assert_eq!(heap.read(a), Err(LookupError::Stale));
    assert_eq!(heap.read(c), Ok(&99));
    assert_eq!(heap.free(a), Err(LookupError::Stale));
    assert_eq!(heap.read(c), Ok(&99));
}

#[test]
fn most_recently_freed_position_is_reused_first() {
    let mut heap: Heap<i64> = Heap::new();
    let a = heap.allocate(HeapValue::new(1));
    let b = heap.allocate(HeapValue::new(2));
    let c = heap.allocate(HeapValue::new(3));
    assert_eq!(heap.free(a), Ok(()));
    assert_eq!(heap.free(c), Ok(()));
    let d = heap.allocate(HeapValue::new(4));
    let e = heap.allocate(HeapValue::new(5));
    let f = heap.allocate(HeapValue::new(6));
    assert_eq!(d, Pointer::new(2, 1));
    assert_eq!(e, Pointer::new(0, 1));
    assert_eq!(f, Pointer::new(3, 0));
    assert_eq!(heap.read(b), Ok(&2));
    assert_eq!(heap.read(d), Ok(&4));
    assert_eq!(heap.read(e), Ok(&5));
    assert_eq!(heap.read(f), Ok(&6));
}

#[test]
fn live_pointers_never_share_a_position() {
    let mut heap: Heap<i64> = Heap::new();
    let mut live: Vec<Pointer> = Vec::new();
    let mut dead: Vec<Pointer> = Vec::new();
    for round in 0..6i64 {
        for k in 0..4i64 {
            live.push(heap.allocate(HeapValue::new(round * 10 + k)));
        }
        let p = live.remove(0);
        assert_eq!(heap.free(p), Ok(()));
        dead.push(p);
        let q = live.remove(live.len() / 2);
        assert_eq!(heap.free(q), Ok(()));
        dead.push(q);
        for i in 0..live.len() {
            for j in 0..live.len() {
                if i != j {
                    assert_ne!(live[i].index, live[j].index);
                }
            }
            assert!(heap.get(live[i]).is_ok());
        }
        for d in dead.iter() {
            assert!(matches!(heap.get(*d), Err(LookupError::Stale)));
            assert!(!live.contains(d));
        }
    }
}

#[test]
fn get_mut_changes_only_the_entry() {
    let mut heap: Heap<i64> = Heap::new();
    let a = heap.allocate(HeapValue::new(1));
    let b = heap.allocate(HeapValue::new(2));
    heap.get_mut(a).unwrap().value = HeapValue::Value(5);
    assert_eq!(heap.read(a), Ok(&5));
    assert_eq!(heap.read(b), Ok(&2));
}

#[test]
fn free_drops_the_bindings_with_the_slot() {
    let mut heap: Heap<i64> = Heap::new();
    let a = heap.allocate(HeapValue::new(1));
    let binding = DynamicProperty { id: 1, node: 4, property: 2 };
    assert_eq!(heap.attach_property(a, binding), Ok(()));
    assert_eq!(heap.free(a), Ok(()));
    let c = heap.allocate(HeapValue::new(2));
    assert_eq!(c.index, a.index);
    assert!(heap.get(c).unwrap().ui_properties.is_empty());
    assert!(heap.get(c).unwrap().dependents.is_empty());
}

#[test]
fn free_with_dependents_is_refused() {
    let mut heap: Heap<i64> = Heap::new();
    let a = heap.allocate(HeapValue::new(1));
    let b = heap.allocate(HeapValue::new_with_formula(1, ClosurePointer::new(0)));
    assert_eq!(heap.add_dependent(a, b), Ok(()));
    assert_eq!(heap.free(a), Err(LookupError::DanglingDependents));
    assert_eq!(heap.read(a), Ok(&1));
    assert_eq!(heap.get(a).unwrap().dependents, vec![b]);
    assert_eq!(heap.remove_dependent(a, b), Ok(()));
    assert_eq!(heap.free(a), Ok(()));
    assert!(matches!(heap.get(a), Err(LookupError::Stale)));
}

#[test]
fn free_of_a_listed_dependent_is_refused() {
    let mut heap: Heap<i64> = Heap::new();
    let a = heap.allocate(HeapValue::new(1));
    let b = heap.allocate(HeapValue::new_with_formula(1, ClosurePointer::new(0)));
    assert_eq!(heap.add_dependent(a, b), Ok(()));
    assert!(heap.is_referenced(b));
    assert!(!heap.is_referenced(a));
    assert_eq!(heap.free(b), Err(LookupError::DanglingDependents));
    assert_eq!(heap.read(b), Ok(&1));
    assert_eq!(heap.remove_dependent(a, b), Ok(()));
    assert!(!heap.is_referenced(b));
    assert_eq!(heap.free(b), Ok(()));
}
