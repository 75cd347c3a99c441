use numberer::{Numberer, SerializedNumberer};

#[test]
fn serialization_roundtrip_results_in_same_numberer() {
    let mut numberer = Numberer::new(13);
    numberer.add("hello".to_string());
    numberer.add("world".to_string());
    numberer.add("!".to_string());

    let serialized = SerializedNumberer::from_table(numberer.clone());
    let numberer_deserialized: Numberer<String> = Numberer::from_serialized(serialized);

    assert_eq!(numberer, numberer_deserialized);
}

#[test]
fn empty_table() {
    let zero: Numberer<String> = Numberer::new(0);
    assert!(zero.is_empty());
    assert_eq!(zero.len(), 0);

    let offset: Numberer<String> = Numberer::new(5);
    assert!(offset.is_empty());
    assert_eq!(offset.len(), 5);
}

#[test]
fn idempotent_add() {
    let mut table = Numberer::new(0);
    let before = table.len();
    let first = table.add("alpha".to_string());
    let second = table.add("alpha".to_string());
    assert_eq!(first, second);
    assert!(table.len() <= before + 1);
    assert_eq!(table.len(), 1);
}

#[test]
fn insertion_order_numbering() {
    let mut table = Numberer::new(5);
    assert_eq!(table.add("a".to_string()), 5);
    assert_eq!(table.add("b".to_string()), 6);
    assert_eq!(table.add("c".to_string()), 7);
}

#[test]
fn bidirectional_consistency() {
    let mut table = Numberer::new(2);
    let id = table.add("key".to_string());
    assert_eq!(table.number(&"key".to_string()), Some(id));
    assert_eq!(table.value(id), Some(&"key".to_string()));
}

#[test]
fn out_of_range_miss() {
    let mut table = Numberer::new(3);
    table.add("only".to_string());
    assert_eq!(table.value(0), None);
    assert_eq!(table.value(2), None);
    assert_eq!(table.value(3), Some(&"only".to_string()));
    assert_eq!(table.value(4), None);
    assert_eq!(table.value(100), None);
}

#[test]
fn round_trip_example() {
    let mut table = Numberer::new(13);
    assert_eq!(table.add("hello".to_string()), 13);
    assert_eq!(table.add("world".to_string()), 14);
    assert_eq!(table.add("!".to_string()), 15);

    let serialized = SerializedNumberer::from_table(table);
    assert_eq!(
        serialized.values,
        vec!["hello".to_string(), "world".to_string(), "!".to_string()]
    );
    assert_eq!(serialized.start_at, 13);

    let restored: Numberer<String> = Numberer::from_serialized(serialized);
    assert_eq!(restored.number(&"world".to_string()), Some(14));
    assert_eq!(restored.value(15), Some(&"!".to_string()));
    assert_eq!(restored.len(), 16);
}

#[test]
fn re_add_no_growth() {
    let mut table = Numberer::new(13);
    table.add("hello".to_string());
    table.add("world".to_string());
    table.add("!".to_string());

    let serialized = SerializedNumberer::from_table(table.clone());
    let mut restored: Numberer<String> = Numberer::from_serialized(serialized);
    assert_eq!(restored.add("hello".to_string()), 13);
    assert_eq!(restored.len(), 16);
    assert_eq!(restored, table);
}

#[test]
fn duplicate_payload_resolves_to_last_occurrence() {
    let serialized = SerializedNumberer {
        values: vec!["x".to_string(), "y".to_string(), "x".to_string()],
        start_at: 0,
    };
    let mut table: Numberer<String> = Numberer::from_serialized(serialized);
    assert_eq!(table.len(), 3);
    assert_eq!(table.number(&"x".to_string()), Some(2));
    assert_eq!(table.number(&"y".to_string()), Some(1));
    assert_eq!(table.add("x".to_string()), 2);
    assert_eq!(table.len(), 3);
    assert_eq!(table.value(0), Some(&"x".to_string()));
    assert_eq!(table.value(2), Some(&"x".to_string()));
}

#[test]
fn integer_values() {
    let mut table: Numberer<u64> = Numberer::new(100);
    assert_eq!(table.add(42), 100);
    assert_eq!(table.add(7), 101);
    assert_eq!(table.add(42), 100);
    assert_eq!(table.number(&7), Some(101));
    assert_eq!(table.value(101), Some(&7));
    assert_eq!(table.len(), 102);
}
