//! The budget that the objects of a store share.

use gwead::limits::RuntimeLimits;
use gwead::resource_budget::ResourceBudget;

fn budget(bytes: usize, elements: usize) -> ResourceBudget {
    ResourceBudget::new(
        &RuntimeLimits::default()
            .with_max_memory_bytes(bytes)
            .with_max_table_elements(elements),
    )
}

/// The core property in one test: N memories each under the cap
/// must not collectively exceed it. A per-object check would allow
/// every one of these grows.
#[test]
fn many_memories_share_one_budget() {
    let mut b = budget(4096, 64);
    assert!(b.memory_growing(0, 4096), "first memory fits exactly");
    assert!(
        !b.memory_growing(0, 1),
        "a second memory has no budget left, even for one byte"
    );
}

#[test]
fn many_tables_share_one_budget() {
    let mut b = budget(4096, 64);
    assert!(b.table_growing(0, 64));
    assert!(!b.table_growing(0, 1));
}

/// Growth of an existing object is charged only for the delta —
/// otherwise a memory growing 1 page at a time would exhaust the
/// budget in `cap / page` steps regardless of its actual size.
#[test]
fn growing_one_object_charges_only_the_delta() {
    let mut b = budget(300, 64);
    assert!(b.memory_growing(0, 100));
    assert!(b.memory_growing(100, 200));
    assert!(b.memory_growing(200, 300));
    assert!(!b.memory_growing(300, 301), "301 exceeds the 300 cap");
}

/// Two objects growing independently are both charged, and the
/// second is denied at the point their *sum* crosses the cap.
#[test]
fn two_objects_are_denied_when_their_sum_crosses_the_cap() {
    let mut b = budget(300, 64);
    assert!(b.memory_growing(0, 200), "first takes 200 of 300");
    assert!(b.memory_growing(0, 100), "second takes the remaining 100");
    assert!(!b.memory_growing(100, 101), "nothing left for the second");
}

/// A denied grow must not consume budget — otherwise a module
/// could exhaust the cap purely by asking for things it never got.
#[test]
fn a_denied_grow_leaves_the_budget_untouched() {
    let mut b = budget(300, 64);
    assert!(!b.memory_growing(0, 400));
    assert!(b.memory_growing(0, 300), "the full budget is still there");
}

/// Tables are counted apart from memories, and a refused table takes nothing either.
#[test]
fn tables_and_memories_do_not_share() {
    let mut b = budget(300, 64);
    assert!(b.memory_growing(0, 300));
    assert!(!b.table_growing(0, 65));
    assert!(b.table_growing(0, 64));
    assert!(!b.table_growing(64, 65));
}

#[test]
fn a_store_may_hold_what_the_limits_say() {
    let b = ResourceBudget::new(
        &RuntimeLimits::default()
            .with_max_instances(3)
            .with_max_tables(4)
            .with_max_memories(5),
    );
    assert_eq!(b.max_instances(), 3);
    assert_eq!(b.max_tables(), 4);
    assert_eq!(b.max_memories(), 5);
}
