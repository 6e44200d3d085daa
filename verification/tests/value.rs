use tuc::value::{Value, ValueTable};

// Identifiers issued by one value table are strictly increasing and
// never repeat.
#[test]
fn identifiers_strictly_increase() {
    let mut t = ValueTable::new();
    let mut seen: Vec<Value> = Vec::new();
    for _ in 0..10 {
        let v = t.new_value();
        if let Some(prev) = seen.last() {
            assert!(prev.id < v.id);
        }
        assert!(!seen.contains(&v));
        seen.push(v);
    }
    assert_eq!(seen[0], Value { id: 0 });
    assert_eq!(seen[9], Value { id: 9 });
}

// Batch allocation is equivalent to repeated single allocation.
#[test]
fn batch_allocation_matches_single() {
    let mut t1 = ValueTable::new();
    let batch = t1.new_values(4);
    let mut t2 = ValueTable::new();
    let singles: Vec<Value> = (0..4).map(|_| t2.new_value()).collect();
    assert_eq!(batch, singles);
    // Allocation continues after a batch without reuse.
    assert_eq!(t1.new_value(), Value { id: 4 });
}

#[test]
fn empty_batch() {
    let mut t = ValueTable::new();
    assert_eq!(t.new_values(0), Vec::<Value>::new());
    assert_eq!(t.new_value(), Value { id: 0 });
}
