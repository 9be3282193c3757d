use reactive_store::edges::{detach, link, list_contains, unlink};
use reactive_store::heap::Heap;
use reactive_store::pointer::{ClosurePointer, DynamicProperty, LookupError, Pointer};
use reactive_store::value::HeapValue;

#[test]
fn link_adds_once() {
    let a = Pointer::new(0, 0);
    let b = Pointer::new(1, 0);
    let mut list = vec![a];
    link(&mut list, b);
    assert_eq!(list, vec![a, b]);
    link(&mut list, a);
    link(&mut list, b);
    assert_eq!(list, vec![a, b]);
    assert!(list_contains(&list, a));
    assert!(!list_contains(&list, Pointer::new(0, 1)));
}

#[test]
fn unlink_removes_every_occurrence_and_keeps_the_order() {
    let a = Pointer::new(0, 0);
    let b = Pointer::new(1, 0);
    let c = Pointer::new(2, 0);
    let mut list = vec![a, b, c, b, a];
    unlink(&mut list, b);
    assert_eq!(list, vec![a, c, a]);
    unlink(&mut list, b);
    assert_eq!(list, vec![a, c, a]);
    unlink(&mut list, a);
    assert_eq!(list, vec![c]);
}

#[test]
fn detach_removes_by_id() {
    let x = DynamicProperty { id: 1, node: 10, property: 0 };
    let y = DynamicProperty { id: 2, node: 11, property: 1 };
    let z = DynamicProperty { id: 1, node: 12, property: 2 };
    let mut list = vec![x, y, z];
    detach(&mut list, 1);
    assert_eq!(list, vec![y]);
    detach(&mut list, 7);
    assert_eq!(list, vec![y]);
}

#[test]
fn add_dependent_records_an_edge_once() {
    let mut heap: Heap<i64> = Heap::new();
    let a = heap.allocate(HeapValue::new(1));
    let b = heap.allocate(HeapValue::new_with_formula(1, ClosurePointer::new(0)));
    let c = heap.allocate(HeapValue::new_with_formula(1, ClosurePointer::new(1)));
    assert_eq!(heap.add_dependent(a, b), Ok(()));
    assert_eq!(heap.add_dependent(a, c), Ok(()));
    assert_eq!(heap.add_dependent(a, b), Ok(()));
    assert_eq!(heap.get(a).unwrap().dependents, vec![b, c]);
    assert!(heap.get(b).unwrap().dependents.is_empty());
}

#[test]
fn add_dependent_refusals() {
    let mut heap: Heap<i64> = Heap::new();
    let a = heap.allocate(HeapValue::new(1));
    let plain = heap.allocate(HeapValue::new(2));
    let f = heap.allocate(HeapValue::new_with_formula(1, ClosurePointer::new(0)));
    let gone = heap.allocate(HeapValue::new_with_formula(1, ClosurePointer::new(1)));
    assert_eq!(heap.free(gone), Ok(()));
    let nowhere = Pointer::new(40, 0);
    assert_eq!(heap.add_dependent(nowhere, f), Err(LookupError::NotFound));
    assert_eq!(heap.add_dependent(gone, f), Err(LookupError::Stale));
    assert_eq!(heap.add_dependent(f, f), Err(LookupError::CycleDetected));
    assert_eq!(heap.add_dependent(a, a), Err(LookupError::CycleDetected));
    assert_eq!(heap.add_dependent(a, nowhere), Err(LookupError::NotFound));
    assert_eq!(heap.add_dependent(a, gone), Err(LookupError::Stale));
    assert_eq!(heap.add_dependent(a, plain), Err(LookupError::TypeMismatch));
    assert!(heap.get(a).unwrap().dependents.is_empty());
    assert!(heap.get(f).unwrap().dependents.is_empty());
}

#[test]
fn remove_dependent_drops_a_dead_edge() {
    let mut heap: Heap<i64> = Heap::new();
    let a = heap.allocate(HeapValue::new(1));
    let b = heap.allocate(HeapValue::new_with_formula(1, ClosurePointer::new(0)));
    let dead = Pointer::new(9, 3);
    heap.get_mut(a).unwrap().dependents = vec![dead, b, dead];
    assert_eq!(heap.remove_dependent(a, dead), Ok(()));
    assert_eq!(heap.get(a).unwrap().dependents, vec![b]);
    assert_eq!(heap.remove_dependent(dead, b), Err(LookupError::NotFound));
}

#[test]
fn bindings_are_kept_in_order_and_survive_a_write() {
    let mut heap: Heap<i64> = Heap::new();
    let a = heap.allocate(HeapValue::new(1));
    let x = DynamicProperty { id: 1, node: 10, property: 0 };
    let y = DynamicProperty { id: 2, node: 11, property: 1 };
    assert_eq!(heap.attach_property(a, x), Ok(()));
    assert_eq!(heap.attach_property(a, y), Ok(()));
    assert_eq!(heap.get(a).unwrap().ui_properties, vec![x, y]);
    let none = |_c: ClosurePointer, _h: &Heap<i64>| -> (i64, Vec<Pointer>) { (0, vec![]) };
    assert!(heap.write(a, 5, &none).is_ok());
    assert_eq!(heap.get(a).unwrap().ui_properties, vec![x, y]);
    assert_eq!(heap.detach_property(a, 1), Ok(()));
    assert_eq!(heap.get(a).unwrap().ui_properties, vec![y]);
    assert_eq!(heap.detach_property(a, 1), Ok(()));
    assert_eq!(heap.get(a).unwrap().ui_properties, vec![y]);
    assert_eq!(heap.read(a), Ok(&5));
}

#[test]
fn bindings_on_a_dead_slot_are_refused() {
    let mut heap: Heap<i64> = Heap::new();
    let a = heap.allocate(HeapValue::new(1));
    assert_eq!(heap.free(a), Ok(()));
    let x = DynamicProperty { id: 1, node: 10, property: 0 };
    assert_eq!(heap.attach_property(a, x), Err(LookupError::Stale));
    assert_eq!(heap.detach_property(a, 1), Err(LookupError::Stale));
    assert_eq!(heap.attach_property(Pointer::new(5, 0), x), Err(LookupError::NotFound));
    assert_eq!(heap.detach_property(Pointer::new(5, 0), 1), Err(LookupError::NotFound));
}
