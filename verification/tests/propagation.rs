use std::cell::Cell;

use reactive_store::heap::Heap;
use reactive_store::pass::Propagation;
use reactive_store::pointer::{ClosurePointer, LookupError, Pointer};
use reactive_store::value::HeapValue;

fn value_of(heap: &Heap<i64>, p: Pointer) -> i64 {
    *heap.read(p).unwrap()
}

fn never(_closure: ClosurePointer, _heap: &Heap<i64>) -> (i64, Vec<Pointer>) {
    panic!("nothing is to be evaluated")
}

#[test]
fn write_then_read_gives_the_value_back() {
    let mut heap: Heap<i64> = Heap::new();
    let a = heap.allocate(HeapValue::new(10));
    let b = heap.allocate(HeapValue::new(20));
    let report = heap.write(a, 11, &never).unwrap();
    assert_eq!(heap.read(a), Ok(&11));
    assert_eq!(heap.read(b), Ok(&20));
    assert_eq!(report.changed, vec![a]);
    assert!(report.recomputed.is_empty());
    assert!(report.failed.is_empty());
}

#[test]
fn write_refusals_change_nothing() {
    let mut heap: Heap<i64> = Heap::new();
    let a = heap.allocate(HeapValue::new(10));
    let f = heap.allocate(HeapValue::new_with_formula(10, ClosurePointer::new(0)));
    let gone = heap.allocate(HeapValue::new(1));
    assert_eq!(heap.free(gone), Ok(()));
    assert!(matches!(heap.write(f, 5, &never), Err(LookupError::TypeMismatch)));
    assert!(matches!(heap.write(gone, 5, &never), Err(LookupError::Stale)));
    assert!(matches!(heap.write(Pointer::new(9, 0), 5, &never), Err(LookupError::NotFound)));
    assert_eq!(heap.read(a), Ok(&10));
    assert_eq!(heap.read(f), Ok(&10));
}

/// x, y plain; z = x + y; w = z * 2.
fn sum_and_double(count: &Cell<usize>, x: Pointer, y: Pointer, z: Pointer) -> impl Fn(
    ClosurePointer,
    &Heap<i64>,
) -> (i64, Vec<Pointer>) + '_ {
    move |closure: ClosurePointer, heap: &Heap<i64>| {
        count.set(count.get() + 1);
        match closure.key {
            0 => (value_of(heap, x) + value_of(heap, y), vec![x, y]),
            _ => (value_of(heap, z) * 2, vec![z]),
        }
    }
}

#[test]
fn a_write_reaches_every_formula_downstream() {
    let mut heap: Heap<i64> = Heap::new();
    let x = heap.allocate(HeapValue::new(10));
    let y = heap.allocate(HeapValue::new(20));
    let z = heap.allocate(HeapValue::new_with_formula(30, ClosurePointer::new(0)));
    let w = heap.allocate(HeapValue::new_with_formula(60, ClosurePointer::new(1)));
    assert_eq!(heap.add_dependent(x, z), Ok(()));
    assert_eq!(heap.add_dependent(y, z), Ok(()));
    assert_eq!(heap.add_dependent(z, w), Ok(()));
    let count = Cell::new(0usize);
    let report = heap.write(x, 11, &sum_and_double(&count, x, y, z)).unwrap();
    assert_eq!(heap.read(x), Ok(&11));
    assert_eq!(heap.read(z), Ok(&31));
    assert_eq!(heap.read(w), Ok(&62));
    assert_eq!(count.get(), 2);
    assert_eq!(report.recomputed, vec![z, w]);
    assert_eq!(report.changed, vec![x, z, w]);
    assert!(report.failed.is_empty());
    assert_eq!(heap.get(x).unwrap().dependents, vec![z]);
    assert_eq!(heap.get(y).unwrap().dependents, vec![z]);
    assert_eq!(heap.get(z).unwrap().dependents, vec![w]);
    assert!(heap.get(w).unwrap().dependents.is_empty());
}

#[test]
fn writing_the_same_value_evaluates_nothing() {
    let mut heap: Heap<i64> = Heap::new();
    let a = heap.allocate(HeapValue::new(10));
    let b = heap.allocate(HeapValue::new_with_formula(11, ClosurePointer::new(0)));
    let c = heap.allocate(HeapValue::new_with_formula(12, ClosurePointer::new(1)));
    assert_eq!(heap.add_dependent(a, b), Ok(()));
    assert_eq!(heap.add_dependent(b, c), Ok(()));
    let count = Cell::new(0usize);
    let evaluate = |closure: ClosurePointer, heap: &Heap<i64>| -> (i64, Vec<Pointer>) {
        count.set(count.get() + 1);
        match closure.key {
            0 => (value_of(heap, a) + 1, vec![a]),
            _ => (value_of(heap, b) + 1, vec![b]),
        }
    };
    let report = heap.write(a, 10, &evaluate).unwrap();
    assert_eq!(count.get(), 0);
    assert!(report.recomputed.is_empty());
    assert!(report.changed.is_empty());
    assert!(report.failed.is_empty());
    assert_eq!(heap.read(a), Ok(&10));
    assert_eq!(heap.read(b), Ok(&11));
    assert_eq!(heap.read(c), Ok(&12));
}

#[test]
fn an_unchanged_formula_ends_the_pass() {
    // b = a / 10, c = b + 1: writing 15 over 10 leaves b at 1.
    let mut heap: Heap<i64> = Heap::new();
    let a = heap.allocate(HeapValue::new(10));
    let b = heap.allocate(HeapValue::new_with_formula(1, ClosurePointer::new(0)));
    let c = heap.allocate(HeapValue::new_with_formula(2, ClosurePointer::new(1)));
    assert_eq!(heap.add_dependent(a, b), Ok(()));
    assert_eq!(heap.add_dependent(b, c), Ok(()));
    let count = Cell::new(0usize);
    let evaluate = |closure: ClosurePointer, heap: &Heap<i64>| -> (i64, Vec<Pointer>) {
        count.set(count.get() + 1);
        match closure.key {
            0 => (value_of(heap, a) / 10, vec![a]),
            _ => (value_of(heap, b) + 1, vec![b]),
        }
    };
    let report = heap.write(a, 15, &evaluate).unwrap();
    assert_eq!(count.get(), 1);
    assert_eq!(report.recomputed, vec![b]);
    assert_eq!(report.changed, vec![a]);
    assert_eq!(heap.read(b), Ok(&1));
    assert_eq!(heap.read(c), Ok(&2));
    let report = heap.write(a, 25, &evaluate).unwrap();
    assert_eq!(count.get(), 3);
    assert_eq!(report.recomputed, vec![b, c]);
    assert_eq!(report.changed, vec![a, b, c]);
    assert_eq!(heap.read(b), Ok(&2));
    assert_eq!(heap.read(c), Ok(&3));
}

#[test]
fn dependents_are_processed_level_by_level() {
    // a feeds b and c; b feeds d; c feeds e.
    let mut heap: Heap<i64> = Heap::new();
    let a = heap.allocate(HeapValue::new(0));
    let b = heap.allocate(HeapValue::new_with_formula(0, ClosurePointer::new(1)));
    let c = heap.allocate(HeapValue::new_with_formula(0, ClosurePointer::new(2)));
    let d = heap.allocate(HeapValue::new_with_formula(0, ClosurePointer::new(3)));
    let e = heap.allocate(HeapValue::new_with_formula(0, ClosurePointer::new(4)));
    assert_eq!(heap.add_dependent(a, b), Ok(()));
    assert_eq!(heap.add_dependent(a, c), Ok(()));
    assert_eq!(heap.add_dependent(b, d), Ok(()));
    assert_eq!(heap.add_dependent(c, e), Ok(()));
    let evaluate = |closure: ClosurePointer, heap: &Heap<i64>| -> (i64, Vec<Pointer>) {
        match closure.key {
            1 => (value_of(heap, a) + 1, vec![a]),
            2 => (value_of(heap, a) + 2, vec![a]),
            3 => (value_of(heap, b) + 3, vec![b]),
            _ => (value_of(heap, c) + 4, vec![c]),
        }
    };
    let report = heap.write(a, 100, &evaluate).unwrap();
    assert_eq!(report.recomputed, vec![b, c, d, e]);
    assert_eq!(report.changed, vec![a, b, c, d, e]);
    assert_eq!(heap.read(b), Ok(&101));
    assert_eq!(heap.read(c), Ok(&102));
    assert_eq!(heap.read(d), Ok(&104));
    assert_eq!(heap.read(e), Ok(&106));
}

#[test]
fn edges_follow_what_a_formula_reads() {
    // f reads `switch`, and then `left` or `right`.
    let mut heap: Heap<i64> = Heap::new();
    let switch = heap.allocate(HeapValue::new(0));
    let left = heap.allocate(HeapValue::new(5));
    let right = heap.allocate(HeapValue::new(7));
    let f = heap.allocate(HeapValue::new_with_formula(5, ClosurePointer::new(0)));
    assert_eq!(heap.add_dependent(switch, f), Ok(()));
    assert_eq!(heap.add_dependent(left, f), Ok(()));
    let count = Cell::new(0usize);
    let evaluate = |_closure: ClosurePointer, heap: &Heap<i64>| -> (i64, Vec<Pointer>) {
        count.set(count.get() + 1);
        if value_of(heap, switch) == 0 {
            (value_of(heap, left), vec![switch, left])
        } else {
            (value_of(heap, right), vec![switch, right, right])
        }
    };
    heap.write(switch, 1, &evaluate).unwrap();
    assert_eq!(heap.read(f), Ok(&7));
    assert_eq!(heap.get(switch).unwrap().dependents, vec![f]);
    assert!(heap.get(left).unwrap().dependents.is_empty());
    assert_eq!(heap.get(right).unwrap().dependents, vec![f]);
    assert_eq!(count.get(), 1);
    // `left` no longer reaches f
    heap.write(left, 50, &evaluate).unwrap();
    assert_eq!(count.get(), 1);
    assert_eq!(heap.read(f), Ok(&7));
    heap.write(right, 70, &evaluate).unwrap();
    assert_eq!(count.get(), 2);
    assert_eq!(heap.read(f), Ok(&70));
    // no edge left on `left`: it can go
    assert_eq!(heap.free(left), Ok(()));
}

#[test]
fn a_formula_that_reads_itself_is_refused() {
    let mut heap: Heap<i64> = Heap::new();
    let a = heap.allocate(HeapValue::new(1));
    let f = heap.allocate(HeapValue::new_with_formula(1, ClosurePointer::new(0)));
    assert_eq!(heap.add_dependent(a, f), Ok(()));
    let count = Cell::new(0usize);
    let evaluate = |_closure: ClosurePointer, heap: &Heap<i64>| -> (i64, Vec<Pointer>) {
        count.set(count.get() + 1);
        (value_of(heap, a) + value_of(heap, f), vec![a, f])
    };
    let report = heap.write(a, 2, &evaluate).unwrap();
    assert_eq!(count.get(), 1);
    assert_eq!(report.recomputed, vec![f]);
    assert_eq!(report.changed, vec![a]);
    assert_eq!(report.failed, vec![(f, LookupError::CycleDetected)]);
    assert_eq!(heap.read(f), Ok(&1));
    assert_eq!(heap.get(a).unwrap().dependents, vec![f]);
    assert!(heap.get(f).unwrap().dependents.is_empty());
}

#[test]
fn a_cycle_of_edges_does_not_loop() {
    // f and g list each other; a feeds f.
    let mut heap: Heap<i64> = Heap::new();
    let a = heap.allocate(HeapValue::new(1));
    let f = heap.allocate(HeapValue::new_with_formula(0, ClosurePointer::new(0)));
    let g = heap.allocate(HeapValue::new_with_formula(0, ClosurePointer::new(1)));
    assert_eq!(heap.add_dependent(a, f), Ok(()));
    assert_eq!(heap.add_dependent(f, g), Ok(()));
    assert_eq!(heap.add_dependent(g, f), Ok(()));
    let count = Cell::new(0usize);
    let evaluate = |closure: ClosurePointer, heap: &Heap<i64>| -> (i64, Vec<Pointer>) {
        count.set(count.get() + 1);
        match closure.key {
            0 => (value_of(heap, a) + value_of(heap, g), vec![a, g]),
            _ => (value_of(heap, f) + 1, vec![f]),
        }
    };
    let report = heap.write(a, 5, &evaluate).unwrap();
    assert_eq!(count.get(), 2);
    assert_eq!(report.recomputed, vec![f, g]);
    assert_eq!(report.changed, vec![a, f, g]);
    assert_eq!(report.failed, vec![(f, LookupError::CycleDetected)]);
    assert_eq!(heap.read(f), Ok(&5));
    assert_eq!(heap.read(g), Ok(&6));
}

#[test]
fn dependents_that_cannot_be_evaluated_are_reported_and_passed_over() {
    let mut heap: Heap<i64> = Heap::new();
    let a = heap.allocate(HeapValue::new(1));
    let plain = heap.allocate(HeapValue::new(2));
    let f = heap.allocate(HeapValue::new_with_formula(0, ClosurePointer::new(0)));
    let gone = heap.allocate(HeapValue::new_with_formula(0, ClosurePointer::new(1)));
    assert_eq!(heap.free(gone), Ok(()));
    let nowhere = Pointer::new(77, 0);
    heap.get_mut(a).unwrap().dependents = vec![plain, gone, f, nowhere, f];
    let count = Cell::new(0usize);
    let evaluate = |_closure: ClosurePointer, heap: &Heap<i64>| -> (i64, Vec<Pointer>) {
        count.set(count.get() + 1);
        (value_of(heap, a) * 3, vec![a])
    };
    let report = heap.write(a, 4, &evaluate).unwrap();
    assert_eq!(count.get(), 1);
    assert_eq!(heap.read(f), Ok(&12));
    assert_eq!(report.recomputed, vec![f]);
    assert_eq!(report.changed, vec![a, f]);
    assert_eq!(
        report.failed,
        vec![
            (plain, LookupError::TypeMismatch),
            (gone, LookupError::Stale),
            (nowhere, LookupError::NotFound),
            (f, LookupError::CycleDetected),
        ]
    );
    assert_eq!(heap.read(plain), Ok(&2));
}

#[test]
fn an_evaluation_that_read_a_dead_slot_is_refused() {
    let mut heap: Heap<i64> = Heap::new();
    let a = heap.allocate(HeapValue::new(1));
    let f = heap.allocate(HeapValue::new_with_formula(0, ClosurePointer::new(0)));
    let g = heap.allocate(HeapValue::new_with_formula(0, ClosurePointer::new(1)));
    assert_eq!(heap.add_dependent(a, f), Ok(()));
    assert_eq!(heap.add_dependent(a, g), Ok(()));
    let nowhere = Pointer::new(77, 0);
    let evaluate = |closure: ClosurePointer, heap: &Heap<i64>| -> (i64, Vec<Pointer>) {
        match closure.key {
            0 => (9, vec![a, nowhere]),
            _ => (value_of(heap, a) + 1, vec![a]),
        }
    };
    let report = heap.write(a, 4, &evaluate).unwrap();
    assert_eq!(report.recomputed, vec![f, g]);
    assert_eq!(report.changed, vec![a, g]);
    assert_eq!(report.failed, vec![(f, LookupError::NotFound)]);
    assert_eq!(heap.read(f), Ok(&0));
    assert_eq!(heap.read(g), Ok(&5));
    assert_eq!(heap.get(a).unwrap().dependents, vec![f, g]);
}

#[test]
fn apply_evaluation_reconciles_and_reports_a_change() {
    let mut heap: Heap<i64> = Heap::new();
    let a = heap.allocate(HeapValue::new(1));
    let b = heap.allocate(HeapValue::new(2));
    let f = heap.allocate(HeapValue::new_with_formula(1, ClosurePointer::new(0)));
    let g = heap.allocate(HeapValue::new_with_formula(1, ClosurePointer::new(1)));
    assert_eq!(heap.add_dependent(a, g), Ok(()));
    assert_eq!(heap.add_dependent(a, f), Ok(()));
    assert_eq!(heap.apply_evaluation(f, 1, &vec![b]), Ok(false));
    assert_eq!(heap.get(a).unwrap().dependents, vec![g]);
    assert_eq!(heap.get(b).unwrap().dependents, vec![f]);
    assert_eq!(heap.apply_evaluation(f, 3, &vec![a, b]), Ok(true));
    assert_eq!(heap.get(a).unwrap().dependents, vec![g, f]);
    assert_eq!(heap.get(b).unwrap().dependents, vec![f]);
    assert_eq!(heap.read(f), Ok(&3));
    assert_eq!(heap.get(f).unwrap().value, HeapValue::Formula {
        cached_value: 3,
        closure: ClosurePointer::new(0),
    });
}

#[test]
fn apply_evaluation_refusals_change_nothing() {
    let mut heap: Heap<i64> = Heap::new();
    let a = heap.allocate(HeapValue::new(1));
    let f = heap.allocate(HeapValue::new_with_formula(1, ClosurePointer::new(0)));
    let gone = heap.allocate(HeapValue::new(1));
    assert_eq!(heap.free(gone), Ok(()));
    assert_eq!(heap.add_dependent(a, f), Ok(()));
    let nowhere = Pointer::new(77, 0);
    assert_eq!(heap.apply_evaluation(a, 5, &vec![]), Err(LookupError::TypeMismatch));
    assert_eq!(heap.apply_evaluation(gone, 5, &vec![]), Err(LookupError::Stale));
    assert_eq!(heap.apply_evaluation(nowhere, 5, &vec![]), Err(LookupError::NotFound));
    assert_eq!(heap.apply_evaluation(f, 5, &vec![f]), Err(LookupError::CycleDetected));
    assert_eq!(heap.apply_evaluation(f, 5, &vec![a, gone, f]), Err(LookupError::Stale));
    assert_eq!(heap.apply_evaluation(f, 5, &vec![a, f, gone]), Err(LookupError::CycleDetected));
    assert_eq!(heap.check_reads(f, &vec![a, nowhere]), Err(LookupError::NotFound));
    assert_eq!(heap.check_reads(f, &vec![a, a]), Ok(()));
    assert_eq!(heap.read(a), Ok(&1));
    assert_eq!(heap.read(f), Ok(&1));
    assert_eq!(heap.get(a).unwrap().dependents, vec![f]);
}

#[test]
fn a_pass_can_be_driven_step_by_step() {
    let mut heap: Heap<i64> = Heap::new();
    let a = heap.allocate(HeapValue::new(1));
    let f = heap.allocate(HeapValue::new_with_formula(2, ClosurePointer::new(7)));
    let g = heap.allocate(HeapValue::new_with_formula(3, ClosurePointer::new(8)));
    assert_eq!(heap.add_dependent(a, f), Ok(()));
    assert_eq!(heap.add_dependent(f, g), Ok(()));
    heap.get_mut(a).unwrap().value = HeapValue::Value(10);
    let mut pass = Propagation::begin(&heap, a).unwrap();
    assert_eq!(pass.next(&heap), Some((f, ClosurePointer::new(7))));
    let outcome = heap.apply_evaluation(f, 20, &vec![a]);
    assert_eq!(outcome, Ok(true));
    pass.record(&heap, f, outcome);
    assert_eq!(pass.next(&heap), Some((g, ClosurePointer::new(8))));
    let outcome = heap.apply_evaluation(g, 3, &vec![f]);
    assert_eq!(outcome, Ok(false));
    pass.record(&heap, g, outcome);
    assert_eq!(pass.next(&heap), None);
    let report = pass.finish();
    assert_eq!(report.recomputed, vec![f, g]);
    assert_eq!(report.changed, vec![a, f]);
    assert!(report.failed.is_empty());
}

#[test]
fn a_pass_cannot_begin_at_a_dead_slot() {
    let mut heap: Heap<i64> = Heap::new();
    let a = heap.allocate(HeapValue::new(1));
    assert_eq!(heap.free(a), Ok(()));
    assert!(matches!(Propagation::begin(&heap, a), Err(LookupError::Stale)));
    assert!(matches!(Propagation::begin(&heap, Pointer::new(3, 0)), Err(LookupError::NotFound)));
    assert!(matches!(heap.propagate(a, &never), Err(LookupError::Stale)));
}

#[test]
fn propagate_from_a_formula_treats_it_as_dealt_with() {
    let mut heap: Heap<i64> = Heap::new();
    let f = heap.allocate(HeapValue::new_with_formula(1, ClosurePointer::new(0)));
    let g = heap.allocate(HeapValue::new_with_formula(1, ClosurePointer::new(1)));
    assert_eq!(heap.add_dependent(f, g), Ok(()));
    assert_eq!(heap.add_dependent(g, f), Ok(()));
    let evaluate = |_closure: ClosurePointer, heap: &Heap<i64>| -> (i64, Vec<Pointer>) {
        (value_of(heap, f) + 1, vec![f])
    };
    let report = heap.propagate(f, &evaluate).unwrap();
    assert_eq!(report.recomputed, vec![g]);
    assert_eq!(report.changed, vec![f, g]);
    assert_eq!(report.failed, vec![(f, LookupError::CycleDetected)]);
    assert_eq!(heap.read(g), Ok(&2));
}
