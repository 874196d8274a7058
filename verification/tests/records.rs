use json_summarizer::{NameIndex, Record, Value};

#[test]
fn a_new_record_has_no_fields() {
    let record = Record::new();
    assert_eq!(record.len(), 0);
    assert!(record.get("a").is_none());
}

#[test]
fn a_record_keeps_its_fields_in_order() {
    let mut record = Record::new();
    record.insert("b".to_string(), Value::Boolean(true));
    record.insert("a".to_string(), Value::Null);
    record.insert("c".to_string(), Value::Number(1));
    assert_eq!(record.len(), 3);
    assert_eq!(record.key(0), "b");
    assert_eq!(record.key(1), "a");
    assert_eq!(record.key(2), "c");
    assert!(matches!(record.value(0), Value::Boolean(true)));
    assert!(matches!(record.value(1), Value::Null));
    assert!(matches!(record.value(2), Value::Number(1)));
}

#[test]
fn a_record_finds_a_field_by_its_name() {
    let mut record = Record::new();
    record.insert("name".to_string(), Value::String("x".to_string()));
    record.insert("flag".to_string(), Value::Boolean(false));
    assert!(matches!(record.get("flag"), Some(Value::Boolean(false))));
    assert!(matches!(record.get("name"), Some(Value::String(word)) if word == "x"));
    assert!(record.get("nam").is_none());
    assert!(record.get("").is_none());
}

#[test]
fn a_second_value_replaces_the_first() {
    let mut record = Record::new();
    record.insert("a".to_string(), Value::Number(1));
    record.insert("b".to_string(), Value::Number(2));
    record.insert("a".to_string(), Value::Boolean(true));
    assert_eq!(record.len(), 2);
    assert_eq!(record.key(0), "a");
    assert!(matches!(record.get("a"), Some(Value::Boolean(true))));
    assert!(matches!(record.get("b"), Some(Value::Number(2))));
}

#[test]
fn a_record_can_hold_records_and_arrays() {
    let mut inner = Record::new();
    inner.insert("y".to_string(), Value::Number(1));
    let mut record = Record::new();
    record.insert("x".to_string(), Value::Object(inner));
    record.insert("z".to_string(), Value::Array(vec![Value::Null, Value::Null]));
    assert!(matches!(record.get("x"), Some(Value::Object(inner)) if inner.len() == 1));
    assert!(matches!(record.get("z"), Some(Value::Array(elements)) if elements.len() == 2));
}

#[test]
fn a_name_index_numbers_names_as_they_come() {
    let mut index = NameIndex::new();
    assert_eq!(index.len(), 0);
    assert_eq!(index.find("a"), None);
    assert_eq!(index.push("a".to_string()), 0);
    assert_eq!(index.push("b".to_string()), 1);
    assert_eq!(index.push("".to_string()), 2);
    assert_eq!(index.len(), 3);
    assert_eq!(index.find("a"), Some(0));
    assert_eq!(index.find("b"), Some(1));
    assert_eq!(index.find(""), Some(2));
    assert_eq!(index.find("c"), None);
    assert_eq!(index.name(1), "b");
    assert_eq!(index.names(), &vec!["a".to_string(), "b".to_string(), "".to_string()]);
}
