use tinyscript::ast::Value;
use tinyscript::table::Table;

#[test]
fn table_last_write_wins() {
    let mut t: Table<i64> = Table::new();
    assert!(t.get(&"a".to_string()).is_none());
    t.set("a".to_string(), 1);
    t.set("b".to_string(), 2);
    t.set("a".to_string(), 3);
    assert_eq!(t.get(&"a".to_string()), Some(&3));
    assert_eq!(t.get(&"b".to_string()), Some(&2));
    assert!(t.get(&"c".to_string()).is_none());
}

#[test]
fn value_duplicate_keeps_contents() {
    match Value::Text("hello".to_string()).duplicate() {
        Value::Text(s) => assert_eq!(s, "hello"),
        Value::Number(_) => panic!("wrong variant"),
    }
    assert!(matches!(Value::Number(-3).duplicate(), Value::Number(-3)));
}
