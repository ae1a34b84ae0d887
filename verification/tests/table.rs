use netsandbox::table::Table;

#[test]
fn a_table_keeps_entries_in_the_order_of_arrival() {
    let mut table: Table<u32> = Table::new();
    assert_eq!(table.len(), 0);
    assert_eq!(table.find(&"a".to_string()), None);
    table.append("b".to_string(), 2);
    table.append("a".to_string(), 1);
    assert_eq!(table.len(), 2);
    assert_eq!(table.find(&"b".to_string()), Some(0));
    assert_eq!(table.find(&"a".to_string()), Some(1));
    assert_eq!(table.find(&"c".to_string()), None);
    assert_eq!(table.key(0), "b");
    assert_eq!(*table.value(1), 1);
}

#[test]
fn replace_changes_one_value_only() {
    let mut table: Table<u32> = Table::new();
    table.append("b".to_string(), 2);
    table.append("a".to_string(), 1);
    table.replace(0, 20);
    assert_eq!(*table.value(0), 20);
    assert_eq!(*table.value(1), 1);
    assert_eq!(table.key(0), "b");
    assert_eq!(table.len(), 2);
}
