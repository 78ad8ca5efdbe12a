//! The tables of compiled-in step bodies.

use gwead::native_impls::{
    check_reservation, IntrinsicStepImplEntry, IntrinsicStepImplTable, NativeImplCollision,
    NativeStepImplEntry, NativeStepImplTable,
};
use gwead::wasm_runtime::BodyId;

const DUMMY: BodyId = BodyId(1);
const OTHER: BodyId = BodyId(2);

/// What the engine submits of its own.
fn engine_natives() -> [NativeStepImplEntry<BodyId>; 2] {
    [
        NativeStepImplEntry::kernel("gwead.intrinsics.throw_error", BodyId(10)),
        NativeStepImplEntry::kernel("gwead.intrinsics.let", BodyId(11)),
    ]
}

#[test]
fn from_entries_builds_table_from_distinct_names() {
    let entries = [
        NativeStepImplEntry::new("crate-a.alpha", DUMMY),
        NativeStepImplEntry::new("crate-b.beta", DUMMY),
    ];
    let table = NativeStepImplTable::from_entries(&entries).expect("distinct names build cleanly");
    assert_eq!(table.len(), 2);
    assert!(table.get("crate-a.alpha").is_some());
    assert!(table.get("crate-b.beta").is_some());
    assert!(table.get("nonexistent").is_none());
}

#[test]
fn from_entries_rejects_duplicate_names() {
    let entries = [
        NativeStepImplEntry::new("duplicate.name", DUMMY),
        NativeStepImplEntry::new("other.name", DUMMY),
        NativeStepImplEntry::new("duplicate.name", DUMMY),
    ];
    let err = match NativeStepImplTable::from_entries(&entries) {
        Ok(_) => panic!("duplicate name should produce a collision error"),
        Err(e) => e,
    };
    assert!(
        matches!(&err, NativeImplCollision::Duplicate { name } if name == "duplicate.name"),
        "{err:?}"
    );
    // Error message names the collision so the embedder can fix it.
    let msg = err.message();
    assert!(
        msg.contains("duplicate.name"),
        "error message should name the collision: {msg}"
    );
    assert!(
        msg.contains("inventory::submit!"),
        "error message should point at the cause: {msg}"
    );
}

#[test]
fn empty_table_constructs_and_reports_zero() {
    let table: NativeStepImplTable<BodyId> = NativeStepImplTable::empty();
    assert!(table.is_empty());
    assert_eq!(table.len(), 0);
    assert!(table.get("anything").is_none());
}

/// Topping up must implement insert-if-absent: the embedder-supplied entry wins on collision, and
/// any entries not already present get added.
#[test]
fn ensure_from_inventory_preserves_existing_and_tops_up_missing() {
    let mut table = NativeStepImplTable::empty();
    assert!(
        table.get("gwead.intrinsics.let").is_none(),
        "empty table has no inventory entries until ensure_from_inventory runs"
    );

    // Pre-seed an embedder name, then top up from an explicit entry
    // list that ALSO carries that name: the pre-seeded entry must
    // win, and the other entry must arrive.
    table
        .insert("myapp.x.a", DUMMY)
        .expect("fresh table, insert succeeds");
    let entries = [
        NativeStepImplEntry::new("myapp.x.a", OTHER),
        NativeStepImplEntry::new("myapp.x.b", OTHER),
    ];
    table
        .ensure_from_entries(&entries)
        .expect("no reserved names");
    let resolved = table.get("myapp.x.a").expect("pre-seeded entry survives");
    assert_eq!(
        resolved, DUMMY,
        "ensure_from_entries must NOT overwrite the embedder's pre-existing entry"
    );
    assert!(
        table.get("myapp.x.b").is_some(),
        "missing entries are topped up"
    );

    // And the engine's own submissions bring the kernel's own bodies.
    let before_len = table.len();
    table
        .ensure_from_entries(&engine_natives())
        .expect("inventory holds no foreign gwead.* names");
    assert!(table.get("gwead.intrinsics.let").is_some());
    assert!(table.get("gwead.intrinsics.throw_error").is_some());
    assert!(table.len() > before_len);
}

/// The `gwead.` prefix is the engine's, mechanically: an embedder
/// cannot pre-seed one (which would let a table override
/// `gwead.intrinsics.let`), and a foreign submission of one fails
/// the table build with a reason rather than as a bare collision.
#[test]
fn the_gwead_prefix_is_reserved_for_the_engine() {
    let mut table = NativeStepImplTable::empty();
    let err = table
        .insert("gwead.intrinsics.let", DUMMY)
        .expect_err("embedders may not seed gwead.* names");
    assert!(
        matches!(err, NativeImplCollision::Reserved { .. }),
        "{}",
        err.message()
    );

    let foreign = [NativeStepImplEntry::new("gwead.anything.at_all", DUMMY)];
    assert!(matches!(
        NativeStepImplTable::from_entries(&foreign),
        Err(NativeImplCollision::Reserved { .. })
    ));
    assert!(matches!(
        NativeStepImplTable::empty().ensure_from_entries(&foreign),
        Err(NativeImplCollision::Reserved { .. })
    ));

    let kernels = [NativeStepImplEntry::kernel("gwead.intrinsics.probe", DUMMY)];
    assert!(
        NativeStepImplTable::from_entries(&kernels).is_ok(),
        "the engine's own are fine"
    );
}

#[test]
fn intrinsic_from_entries_rejects_duplicates() {
    let entries = [
        IntrinsicStepImplEntry {
            name: "dup.intrinsic",
            impl_: DUMMY,
        },
        IntrinsicStepImplEntry {
            name: "dup.intrinsic",
            impl_: DUMMY,
        },
    ];
    let err = match IntrinsicStepImplTable::from_entries(&entries) {
        Ok(_) => panic!("duplicate intrinsic name should collide"),
        Err(e) => e,
    };
    assert!(
        matches!(&err, NativeImplCollision::Duplicate { name } if name == "dup.intrinsic"),
        "{err:?}"
    );
}

#[test]
fn intrinsic_bodies_are_found_by_name() {
    let entries = [IntrinsicStepImplEntry {
        name: "gwead.intrinsics.invoke",
        impl_: OTHER,
    }];
    let table = match IntrinsicStepImplTable::from_entries(&entries) {
        Ok(t) => t,
        Err(e) => panic!("{}", e.message()),
    };
    assert_eq!(table.get("gwead.intrinsics.invoke"), Some(OTHER));
    assert_eq!(table.get("gwead.intrinsics.let"), None);
}

#[test]
fn only_the_engine_may_use_its_prefix() {
    assert!(check_reservation("gwead.x", true).is_ok());
    assert!(check_reservation("gwead.x", false).is_err());
    assert!(check_reservation("gweadx", false).is_ok());
}

/// A name that is taken is refused, and its body stays.
#[test]
fn a_refused_body_changes_nothing() {
    let mut table = NativeStepImplTable::empty();
    table.insert("myapp.x.a", DUMMY).unwrap();
    assert!(matches!(
        table.insert("myapp.x.a", OTHER),
        Err(NativeImplCollision::Duplicate { name }) if name == "myapp.x.a"
    ));
    assert_eq!(table.get("myapp.x.a"), Some(DUMMY));
    assert_eq!(table.len(), 1);
}
