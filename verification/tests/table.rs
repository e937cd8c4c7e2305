use wg_subscriber::clock::{has_elapsed, power_of_two};
use wg_subscriber::table::Table;

#[test]
fn names_keep_their_order() {
    let mut table: Table<u32> = Table::new();
    for (name, value) in [("b", 1), ("a", 2), ("c", 3)] {
        table.insert(name.to_string(), value);
    }
    table.insert("b".to_string(), 9);
    assert_eq!(table.keys(), vec!["b", "a", "c"]);
    assert_eq!(table.get("b"), Some(&9));
    assert_eq!(table.remove("b"), Some(9));
    assert_eq!(table.remove("b"), None);
    assert_eq!(table.keys(), vec!["a", "c"]);
    table.insert("b".to_string(), 4);
    assert_eq!(table.keys(), vec!["a", "c", "b"]);
    assert_eq!((table.key_at(2).as_str(), *table.value_at(2)), ("b", 4));
    assert!(table.contains_key("c") && !table.contains_key("d"));
    assert_eq!(table.len(), 3);
}

#[test]
fn time_does_not_run_back() {
    assert!(has_elapsed(5, 1_000_000_005, 1));
    assert!(!has_elapsed(5, 1_000_000_004, 1));
    assert!(has_elapsed(7, 3, 0));
    assert!(!has_elapsed(7, 3, 1));
    assert!(!has_elapsed(0, u64::MAX, u64::MAX));
}

#[test]
fn powers_of_two() {
    assert_eq!(power_of_two(0), 1);
    assert_eq!(power_of_two(63), 1 << 63);
}
