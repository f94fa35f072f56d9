//! The table of names behind the buffers of a worker.
use bevy_easy_compute::table::NameMap;

#[test]
fn a_name_resolves_to_what_was_registered_last() {
    let mut table: NameMap<u32> = NameMap::new();
    assert_eq!(table.len(), 0);
    assert_eq!(table.get("a"), None);
    table.insert("a", 1);
    table.insert("b", 2);
    table.insert("a", 3);
    assert_eq!(table.len(), 2);
    assert_eq!(table.get("a"), Some(&3));
    assert_eq!(table.get("b"), Some(&2));
    assert_eq!(table.get(""), None);
    assert!(table.contains_key("b"));
    assert!(!table.contains_key("c"));
}

#[test]
fn names_keep_the_order_in_which_they_came() {
    let mut table: NameMap<u32> = NameMap::new();
    table.insert("second", 2);
    table.insert("first", 1);
    table.insert("second", 20);
    assert_eq!(table.position("second"), Some(0));
    assert_eq!(table.position("first"), Some(1));
    assert_eq!(table.position("third"), None);
    assert_eq!(table.key(0), "second");
    assert_eq!(*table.value(0), 20);
    assert_eq!(table.key(1), "first");
}

#[test]
fn values_can_be_changed_in_place() {
    let mut table: NameMap<u32> = NameMap::new();
    table.insert("a", 1);
    table.insert("b", 2);
    table.set_value(0, 10);
    *table.value_mut(1) += 5;
    table.swap_values(0, 1);
    assert_eq!(table.get("a"), Some(&7));
    assert_eq!(table.get("b"), Some(&10));
    table.swap_values(1, 1);
    assert_eq!(table.get("b"), Some(&10));
    let copy = table.duplicate();
    table.insert("a", 0);
    assert_eq!(copy.get("a"), Some(&7));
    assert_eq!(copy.len(), 2);
}
