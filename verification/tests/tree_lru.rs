use cpu_simulator::memory::simple_cache::EvictionPolicy;
use cpu_simulator::memory::tree_lru::{extract_binary, TreeLRUPolicy};
fn make(assoc: u32, sets: u32) -> TreeLRUPolicy {
    TreeLRUPolicy::new(assoc, sets)
}

// -----------------------------------------------------------------------
// extract_binary
// -----------------------------------------------------------------------

#[test]
fn extract_binary_zero() {
    assert_eq!(extract_binary(2, 0), vec![false, false]);
}

#[test]
fn extract_binary_one() {
    assert_eq!(extract_binary(2, 1), vec![true, false]);
}

#[test]
fn extract_binary_all_set() {
    assert_eq!(extract_binary(3, 7), vec![true, true, true]);
}


// -----------------------------------------------------------------------
// 2-way (assoc=1): one node per set, two ways
// -----------------------------------------------------------------------

#[test]
fn two_way_cold_evicts_way_0() {
    let mut p = make(1, 1);
    assert_eq!(p.get_eviction_id(0), 0);
}

#[test]
fn two_way_after_hit_on_0_evicts_1() {
    let mut p = make(1, 1);
    p.log_hit(0, 0);
    assert_eq!(p.get_eviction_id(0), 1);
}

#[test]
fn two_way_after_hit_on_1_evicts_0() {
    let mut p = make(1, 1);
    p.log_hit(0, 1);
    assert_eq!(p.get_eviction_id(0), 0);
}

#[test]
fn two_way_mru_never_evicted() {
    let mut p = make(1, 1);
    p.log_hit(0, 0);
    p.log_hit(0, 1);
    assert_ne!(p.get_eviction_id(0), 1, "MRU way 1 should not be evicted");

    let mut p = make(1, 1);
    p.log_hit(0, 1);
    p.log_hit(0, 0);
    assert_ne!(p.get_eviction_id(0), 0, "MRU way 0 should not be evicted");
}

#[test]
fn two_way_toggle_alternates() {
    let mut p = make(1, 1);
    p.log_hit(0, 0);
    assert_eq!(p.get_eviction_id(0), 1);
    p.log_hit(0, 1);
    assert_eq!(p.get_eviction_id(0), 0);
    p.log_hit(0, 0);
    assert_eq!(p.get_eviction_id(0), 1);
}

// -----------------------------------------------------------------------
// 4-way (assoc=2): three nodes per set, four ways
// -----------------------------------------------------------------------

#[test]
fn four_way_cold_evicts_way_0() {
    let mut p = make(2, 1);
    assert_eq!(p.get_eviction_id(0), 0);
}

#[test]
fn four_way_just_accessed_not_evicted() {
    for way in 0..4 {
        let mut p = make(2, 1);
        p.log_hit(0, way);
        assert_ne!(
            p.get_eviction_id(0),
            way,
            "evicted the way we just accessed (way {way})"
        );
    }
}

// Accessing ways 0-3 in order: each step the candidate advances to the
// next un-accessed way, completing a full cycle.
#[test]
fn four_way_sequential_access_evicts_lru() {
    let mut p = make(2, 1);
    p.log_hit(0, 0);
    assert_eq!(p.get_eviction_id(0), 1);
    p.log_hit(0, 1);
    assert_eq!(p.get_eviction_id(0), 2);
    p.log_hit(0, 2);
    assert_eq!(p.get_eviction_id(0), 3);
    p.log_hit(0, 3);
    assert_eq!(p.get_eviction_id(0), 0);
}

// -----------------------------------------------------------------------
// Multiple sets are independent
// -----------------------------------------------------------------------

#[test]
fn sets_are_independent() {
    let mut p = make(1, 4);
    p.log_hit(0, 0); // set 0: evict 1
    p.log_hit(1, 1); // set 1: evict 0
    p.log_hit(2, 0); // set 2: evict 1
    // set 3 untouched: cold → evict 0

    assert_eq!(p.get_eviction_id(0), 1);
    assert_eq!(p.get_eviction_id(1), 0);
    assert_eq!(p.get_eviction_id(2), 1);
    assert_eq!(p.get_eviction_id(3), 0);
}
