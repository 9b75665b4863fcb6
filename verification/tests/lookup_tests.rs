use ohnomore::lookup::{BoxedLookup, Lookup, LookupTable, MutableLookupTable};

#[test]
fn mutable_lookup_table_test() {
    let mut table: MutableLookupTable<String> = MutableLookupTable::new();
    assert_eq!(table.lookup(&"a".to_string()), Some(1));
    assert_eq!(table.lookup(&"b".to_string()), Some(2));
    assert_eq!(table.lookup(&"a".to_string()), Some(1));
    assert_eq!(table.null(), 0);
}

#[test]
fn lookup_table_test() {
    let mut table: MutableLookupTable<String> = MutableLookupTable::new();
    assert_eq!(table.lookup(&"a".to_string()), Some(1));
    assert_eq!(table.lookup(&"a".to_string()), Some(1));
    assert_eq!(table.lookup(&"b".to_string()), Some(2));

    let mut table: LookupTable<String> = table.into();
    assert_eq!(table.lookup(&"a".to_string()), Some(1));
    assert_eq!(table.lookup(&"a".to_string()), Some(1));
    assert_eq!(table.lookup(&"b".to_string()), Some(2));
    assert_eq!(table.lookup(&"c".to_string()), None);
    assert_eq!(table.null(), 0);
}

#[test]
fn boxed_lookup_holds_its_table() {
    let mut table: MutableLookupTable<char> = MutableLookupTable::new();
    assert_eq!(table.lookup(&'x'), Some(1));
    let boxed = BoxedLookup::new(LookupTable::from(table));
    let inner = boxed.as_ref().expect("boxed lookup should hold a table");
    assert_eq!(inner.get(&'x'), Some(1));
    assert_eq!(inner.get(&'y'), None);

    let empty: BoxedLookup<char> = BoxedLookup::default();
    assert!(empty.as_ref().is_none());
}
