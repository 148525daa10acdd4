// Tests of the RIB: CRUD, merging, the change log and snapshots.

use ari::rib::{Rib, RibChange, RibValue};

fn s(x: &str) -> String {
    x.to_string()
}

#[test]
fn test_rib_create_and_read() {
    let mut rib = Rib::new();

    let result = rib.create(s("test-object"), s("test-class"), RibValue::String(s("test-value")));
    assert!(result.is_ok());

    let obj = rib.read("test-object");
    assert!(obj.is_some());

    let obj = obj.unwrap();
    assert_eq!(obj.name, s("test-object"));
    assert_eq!(obj.class, s("test-class"));
    assert_eq!(obj.value.as_string(), Some("test-value"));
}

#[test]
fn test_rib_update() {
    let mut rib = Rib::new();

    rib.create(s("test"), s("class"), RibValue::Integer(42)).unwrap();

    let result = rib.update("test", RibValue::Integer(100));
    assert!(result.is_ok());

    let obj = rib.read("test").unwrap();
    assert_eq!(obj.value.as_integer(), Some(100));
}

#[test]
fn test_rib_delete() {
    let mut rib = Rib::new();

    rib.create(s("test"), s("class"), RibValue::Boolean(true)).unwrap();

    assert!(rib.delete("test").is_ok());
    assert!(rib.read("test").is_none());
}

#[test]
fn test_rib_list_by_class() {
    let mut rib = Rib::new();

    rib.create(s("obj1"), s("type-a"), RibValue::Integer(1)).unwrap();
    rib.create(s("obj2"), s("type-b"), RibValue::Integer(2)).unwrap();
    rib.create(s("obj3"), s("type-a"), RibValue::Integer(3)).unwrap();

    let type_a_objects = rib.list_by_class("type-a");
    assert_eq!(type_a_objects.len(), 2);
    assert!(type_a_objects.contains(&s("obj1")));
    assert!(type_a_objects.contains(&s("obj3")));
}

#[test]
fn test_rib_duplicate_create() {
    let mut rib = Rib::new();

    rib.create(s("dup"), s("class"), RibValue::Integer(1)).unwrap();
    let result = rib.create(s("dup"), s("class"), RibValue::Integer(2));

    assert!(result.is_err());
}

#[test]
fn test_rib_serialization_roundtrip() {
    let mut rib = Rib::new();

    rib.create(s("string-obj"), s("test"), RibValue::String(s("hello world"))).unwrap();
    rib.create(s("int-obj"), s("test"), RibValue::Integer(42)).unwrap();
    rib.create(s("bool-obj"), s("test"), RibValue::Boolean(true)).unwrap();
    rib.create(s("bytes-obj"), s("test"), RibValue::Bytes(vec![1, 2, 3, 4, 5])).unwrap();

    let struct_fields = vec![
        (s("field1"), RibValue::String(s("value1"))),
        (s("field2"), RibValue::Integer(100)),
    ];
    rib.create(s("struct-obj"), s("complex"), RibValue::Struct(struct_fields)).unwrap();

    let serialized = rib.serialize();
    assert!(!serialized.is_empty());

    let mut rib2 = Rib::new();
    let count = rib2.deserialize(&serialized).unwrap();
    assert_eq!(count, 5);

    let obj1 = rib2.read("string-obj").unwrap();
    assert_eq!(obj1.value.as_string(), Some("hello world"));
    assert_eq!(obj1.class, s("test"));

    let obj2 = rib2.read("int-obj").unwrap();
    assert_eq!(obj2.value.as_integer(), Some(42));

    let obj3 = rib2.read("bool-obj").unwrap();
    assert_eq!(obj3.value.as_boolean(), Some(true));

    let obj4 = rib2.read("bytes-obj").unwrap();
    if let RibValue::Bytes(b) = &obj4.value {
        assert_eq!(b, &vec![1, 2, 3, 4, 5]);
    } else {
        panic!("Expected Bytes value");
    }

    let obj5 = rib2.read("struct-obj").unwrap();
    assert_eq!(obj5.class, s("complex"));
    if let RibValue::Struct(_) = &obj5.value {
        let inner = obj5.value.struct_get("field1").unwrap();
        assert_eq!(inner.as_string(), Some("value1"));
        let inner2 = obj5.value.struct_get("field2").unwrap();
        assert_eq!(inner2.as_integer(), Some(100));
    } else {
        panic!("Expected Struct value");
    }
}

#[test]
fn test_rib_empty_serialization() {
    let rib = Rib::new();

    let serialized = rib.serialize();
    assert!(!serialized.is_empty());

    let mut rib2 = Rib::new();
    let count = rib2.deserialize(&serialized).unwrap();
    assert_eq!(count, 0);
    assert_eq!(rib2.count(), 0);
}

#[test]
fn test_rib_deserialize_empty_data() {
    let mut rib = Rib::new();

    let count = rib.deserialize(&Vec::new()).unwrap();
    assert_eq!(count, 0);
}

#[test]
fn test_rib_version_preservation() {
    let mut rib = Rib::new();

    rib.create(s("obj1"), s("test"), RibValue::Integer(1)).unwrap();

    let original = rib.read("obj1").unwrap();
    let original_version = original.version;
    let original_modified = original.last_modified;

    let serialized = rib.serialize();
    let mut rib2 = Rib::new();
    rib2.deserialize(&serialized).unwrap();

    let restored = rib2.read("obj1").unwrap();
    assert_eq!(restored.version, original_version);
    assert_eq!(restored.last_modified, original_modified);
}

#[test]
fn test_rib_merge_version_conflict() {
    let mut rib = Rib::new();

    rib.create(s("obj1"), s("test"), RibValue::Integer(100)).unwrap();

    let obj_v1 = rib.read("obj1").unwrap();
    assert_eq!(obj_v1.version, 1);

    rib.update("obj1", RibValue::Integer(200)).unwrap();
    let obj_v2 = rib.read("obj1").unwrap();
    assert_eq!(obj_v2.version, 2);
    assert_eq!(obj_v2.value.as_integer(), Some(200));

    let mut rib2 = Rib::new();
    rib2.merge_objects(vec![obj_v1]);

    let merged = rib2.merge_objects(vec![obj_v2]);
    assert_eq!(merged, 1);

    let result = rib2.read("obj1").unwrap();
    assert_eq!(result.version, 2);
    assert_eq!(result.value.as_integer(), Some(200));
}

#[test]
fn test_rib_merge_ignore_older_version() {
    let mut rib = Rib::new();

    rib.create(s("obj1"), s("test"), RibValue::Integer(200)).unwrap();
    rib.update("obj1", RibValue::Integer(200)).unwrap();

    let obj_v2 = rib.read("obj1").unwrap();
    assert_eq!(obj_v2.version, 2);

    let mut old_obj = obj_v2.clone();
    old_obj.version = 1;
    old_obj.value = RibValue::Integer(100);

    let merged = rib.merge_objects(vec![old_obj]);
    assert_eq!(merged, 0);

    let result = rib.read("obj1").unwrap();
    assert_eq!(result.version, 2);
    assert_eq!(result.value.as_integer(), Some(200));
}

#[test]
fn test_rib_get_all_objects() {
    let mut rib = Rib::new();

    rib.create(s("obj1"), s("type-a"), RibValue::Integer(1)).unwrap();
    rib.create(s("obj2"), s("type-b"), RibValue::Integer(2)).unwrap();
    rib.create(s("obj3"), s("type-a"), RibValue::Integer(3)).unwrap();

    let all_objects = rib.get_all_objects();
    assert_eq!(all_objects.len(), 3);

    let names: Vec<String> = all_objects.iter().map(|o| o.name.clone()).collect();
    assert!(names.contains(&s("obj1")));
    assert!(names.contains(&s("obj2")));
    assert!(names.contains(&s("obj3")));
}

#[test]
fn test_rib_change_log_tracking() {
    let mut rib = Rib::new();

    rib.create(s("/test/obj1"), s("test"), RibValue::Integer(100)).unwrap();
    let v1 = rib.current_version();

    rib.create(s("/test/obj2"), s("test"), RibValue::Integer(200)).unwrap();
    let v2 = rib.current_version();

    let changes = rib.get_changes_since(v1);
    assert!(changes.is_ok());
    let changes_vec = changes.unwrap();
    assert_eq!(changes_vec.len(), 1);

    rib.update("/test/obj1", RibValue::Integer(150)).unwrap();
    let v3 = rib.current_version();

    let changes = rib.get_changes_since(v2).unwrap();
    assert_eq!(changes.len(), 1);
    if let RibChange::Updated(obj) = &changes[0] {
        assert_eq!(obj.name, s("/test/obj1"));
        match &obj.value {
            RibValue::Integer(val) => assert_eq!(*val, 150),
            _ => panic!("Wrong value type"),
        }
    } else {
        panic!("Expected Updated change");
    }

    rib.delete("/test/obj2").unwrap();

    let changes = rib.get_changes_since(v3).unwrap();
    assert_eq!(changes.len(), 1);
    if let RibChange::Deleted { name, .. } = &changes[0] {
        assert_eq!(name, &s("/test/obj2"));
    } else {
        panic!("Expected Deleted change");
    }

    let all_changes = rib.get_changes_since(v1).unwrap();
    assert_eq!(all_changes.len(), 3);
}

#[test]
fn test_incremental_sync_application() {
    let mut bootstrap_rib = Rib::new();
    bootstrap_rib.create(s("/test/obj1"), s("test"), RibValue::Integer(100)).unwrap();
    bootstrap_rib.create(s("/test/obj2"), s("test"), RibValue::String(s("hello"))).unwrap();

    let initial_version = bootstrap_rib.current_version();

    let mut member_rib = Rib::new();
    let snapshot = bootstrap_rib.serialize();
    member_rib.deserialize(&snapshot).unwrap();

    bootstrap_rib.create(s("/test/obj3"), s("test"), RibValue::Integer(300)).unwrap();
    bootstrap_rib.update("/test/obj1", RibValue::Integer(150)).unwrap();

    let new_version = bootstrap_rib.current_version();

    let changes = bootstrap_rib.get_changes_since(initial_version).unwrap();
    member_rib.apply_changes(changes).unwrap();

    let obj1 = member_rib.read("/test/obj1").unwrap();
    assert_eq!(obj1.value.as_integer(), Some(150));

    let obj3 = member_rib.read("/test/obj3").unwrap();
    assert_eq!(obj3.value.as_integer(), Some(300));

    let member_version = member_rib.current_version();
    assert_eq!(member_version, new_version);
}

// Change-log overflow: with the log full past its capacity, a version that
// has been evicted is refused, while recent versions still work.
#[test]
fn test_change_log_overflow() {
    let mut rib = Rib::with_change_log_size(1000);

    for i in 0..1100i64 {
        let name = format!("/test/obj-{}", i);
        rib.create(name, s("test"), RibValue::Integer(i)).unwrap();
    }

    let current_version = rib.current_version();

    let result = rib.get_changes_since(1);
    assert!(result.is_err());

    let recent_version = current_version - 50;
    let result = rib.get_changes_since(recent_version);
    assert!(result.is_ok());
    assert_eq!(result.unwrap().len(), 50);
}

// Incremental synchronization moves fewer bytes than a full snapshot.
#[test]
fn test_bandwidth_comparison() {
    let mut rib = Rib::new();

    for i in 0..100i64 {
        rib.create(format!("/test/obj-{}", i), s("test"), RibValue::Integer(i)).unwrap();
    }

    let initial_version = rib.current_version();
    let full_snapshot = rib.serialize();

    for i in 0..5i64 {
        rib.update(&format!("/test/obj-{}", i), RibValue::Integer(i + 1000)).unwrap();
    }

    let changes = rib.get_changes_since(initial_version).unwrap();
    assert_eq!(changes.len(), 5);

    // A rough byte count of the incremental payload: each updated object
    // re-encoded, which is what the sync response carries.
    let mut incremental_bytes = 0usize;
    for c in &changes {
        if let RibChange::Updated(obj) = c {
            incremental_bytes += obj.name.len() + 8 + 8 + 9;
        }
    }
    assert!(incremental_bytes < full_snapshot.len());
}

// The RIB CRUD round trip: create, read, update, read, delete, read.
#[test]
fn rib_crud_round_trip() {
    let mut rib = Rib::new();

    rib.create(s("x"), s("k"), RibValue::Integer(1)).unwrap();
    assert_eq!(rib.read("x").unwrap().value.as_integer(), Some(1));

    rib.update("x", RibValue::Integer(2)).unwrap();
    assert_eq!(rib.read("x").unwrap().value.as_integer(), Some(2));

    rib.delete("x").unwrap();
    assert!(rib.read("x").is_none());
}

// Versions grow strictly across creates and updates, and the modification
// stamp never moves backwards.
#[test]
fn versions_strictly_increase() {
    let mut rib = Rib::new();

    rib.create(s("a"), s("k"), RibValue::Integer(1)).unwrap();
    let first = rib.read("a").unwrap();

    rib.create(s("b"), s("k"), RibValue::Integer(2)).unwrap();
    let second = rib.read("b").unwrap();
    assert!(second.version > first.version);

    rib.update("a", RibValue::Integer(3)).unwrap();
    let updated = rib.read("a").unwrap();
    assert!(updated.version > second.version);
    assert!(updated.last_modified >= first.last_modified);
}

// Merging the same batch twice equals merging it once, and merging two
// batches with distinct versions in either order agrees on every name.
#[test]
fn merge_idempotent_and_commutative() {
    let mut rib = Rib::new();
    rib.create(s("seed"), s("k"), RibValue::Integer(0)).unwrap();
    let a = {
        let mut tmp = Rib::new();
        tmp.create(s("x"), s("k"), RibValue::Integer(10)).unwrap();
        tmp.update("x", RibValue::Integer(11)).unwrap();
        tmp.read("x").unwrap()
    };
    let b = {
        let mut tmp = Rib::new();
        tmp.create(s("ignored"), s("k"), RibValue::Integer(0)).unwrap();
        tmp.create(s("y"), s("k"), RibValue::Integer(20)).unwrap();
        tmp.update("y", RibValue::Integer(21)).unwrap();
        tmp.read("y").unwrap()
    };

    // Idempotence: the second merge of the same batch changes nothing.
    let mut once = Rib::new();
    once.create(s("seed"), s("k"), RibValue::Integer(0)).unwrap();
    let first = once.merge_objects(vec![a.clone(), b.clone()]);
    assert_eq!(first, 2);
    let again = once.merge_objects(vec![a.clone(), b.clone()]);
    assert_eq!(again, 0);

    // Commutativity: both orders agree on both names.
    let mut left = Rib::new();
    left.create(s("seed"), s("k"), RibValue::Integer(0)).unwrap();
    left.merge_objects(vec![a.clone()]);
    left.merge_objects(vec![b.clone()]);

    let mut right = Rib::new();
    right.create(s("seed"), s("k"), RibValue::Integer(0)).unwrap();
    right.merge_objects(vec![b]);
    right.merge_objects(vec![a]);

    assert_eq!(
        left.read("x").unwrap().value.as_integer(),
        right.read("x").unwrap().value.as_integer()
    );
    assert_eq!(
        left.read("y").unwrap().value.as_integer(),
        right.read("y").unwrap().value.as_integer()
    );
}

// Applying changes advances the current version to at least the highest
// version among them.
#[test]
fn apply_changes_advances_version() {
    let mut source = Rib::new();
    source.create(s("p"), s("k"), RibValue::Integer(1)).unwrap();
    source.create(s("q"), s("k"), RibValue::Integer(2)).unwrap();
    source.update("p", RibValue::Integer(3)).unwrap();
    let changes = source.get_changes_since(0).unwrap();
    let max_version = changes.iter().map(|c| c.version()).max().unwrap();

    let mut target = Rib::new();
    target.apply_changes(changes).unwrap();
    assert!(target.current_version() >= max_version);
}

// Pre-populated store, a few updates: the incremental changes are exactly
// the updates and the snapshot is non-empty.
#[test]
fn incremental_sync_bandwidth() {
    let mut rib = Rib::new();
    for i in 0..100i64 {
        rib.create(format!("/obj/{}", i), s("k"), RibValue::Integer(i)).unwrap();
    }
    let snapshot = rib.serialize();
    assert!(snapshot.len() > 0);

    let v_before = rib.current_version();
    for i in 0..5i64 {
        rib.update(&format!("/obj/{}", i), RibValue::Integer(i + 500)).unwrap();
    }
    let changes = rib.get_changes_since(v_before).unwrap();
    assert_eq!(changes.len(), 5);
}
