use soradyne_core::flow::memorizer::{AccessoryMemorizer, CachedOp, Horizon};

fn op(id: u128, author: &str, seq: u64) -> CachedOp {
    CachedOp { id, author: author.to_string(), seq, payload: vec![id as u8, seq as u8] }
}

#[test]
fn test_memorizer_cache_and_retrieve() {
    let mut mem = AccessoryMemorizer::new(7, 100);

    let first = op(11, "dev_A", 1);
    mem.cache_operation(first.copy());
    assert_eq!(mem.cached_count(), 1);

    let ops = mem.operations_since(&Horizon::new());
    assert_eq!(ops.len(), 1);
    assert_eq!(ops[0].id, first.id);
    assert_eq!(ops[0].payload, first.payload);
}

#[test]
fn test_memorizer_dedup() {
    let mut mem = AccessoryMemorizer::new(7, 100);

    let first = op(11, "dev_A", 1);
    mem.cache_operation(first.copy());
    mem.cache_operation(first.copy());
    assert_eq!(mem.cached_count(), 1);
}

#[test]
fn test_memorizer_operations_since() {
    let mut mem = AccessoryMemorizer::new(7, 100);

    mem.cache_operation(op(1, "dev_A", 1));
    mem.cache_operation(op(2, "dev_A", 2));

    let since = Horizon::at("dev_A", 1);
    let ops = mem.operations_since(&since);
    assert_eq!(ops.len(), 1);
    assert_eq!(ops[0].seq, 2);
}

#[test]
fn test_memorizer_max_ops_eviction() {
    let mut mem = AccessoryMemorizer::new(7, 3);

    for i in 1..=5u64 {
        mem.cache_operation(op(i as u128, "dev_A", i));
    }

    assert_eq!(mem.cached_count(), 3);
    let kept: Vec<u64> = mem.operations_since(&Horizon::new()).iter().map(|o| o.seq).collect();
    assert_eq!(kept, vec![3, 4, 5]);
}

#[test]
fn horizon_keeps_the_highest_sequence_per_author() {
    let mut h = Horizon::new();
    assert!(!h.has_seen("a", 1));
    h.observe("a", 3);
    h.observe("a", 2);
    h.observe("b", 1);
    assert!(h.has_seen("a", 3));
    assert!(!h.has_seen("a", 4));
    assert!(h.has_seen("b", 1));
    assert!(!h.has_seen("c", 1));
    let copy = h.copy();
    assert!(copy.has_seen("a", 3) && !copy.has_seen("a", 4));
}

#[test]
fn memorizer_horizon_covers_cached_operations() {
    let mut mem = AccessoryMemorizer::new(1, 2);
    mem.cache_operation(op(1, "x", 4));
    mem.cache_operation(op(2, "y", 9));
    mem.cache_operation(op(3, "x", 5));
    let h = mem.horizon();
    assert!(h.has_seen("x", 5));
    assert!(h.has_seen("y", 9));
    assert!(!h.has_seen("y", 10));
    let unseen = mem.operations_since(&Horizon::at("y", 9));
    assert_eq!(unseen.len(), 1);
    assert_eq!(unseen[0].id, 3);
}

#[test]
fn memorizer_with_no_room_keeps_nothing() {
    let mut mem = AccessoryMemorizer::new(1, 0);
    mem.cache_operation(op(1, "x", 1));
    assert_eq!(mem.cached_count(), 0);
    assert!(mem.horizon().has_seen("x", 1));
    assert_eq!(mem.flow_id, 1);
}
