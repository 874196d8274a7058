use json_summarizer::{Failure, LineError, Policy, Record, Summarizer, Summary, Value};

fn plus(a: u64, b: u64) -> u64 {
    (f64::from_bits(a) + f64::from_bits(b)).to_bits()
}

fn number(value: f64) -> Value {
    Value::Number(value.to_bits())
}

fn text(word: &str) -> Value {
    Value::String(word.to_string())
}

fn record(fields: Vec<(&str, Value)>) -> Record {
    let mut record = Record::new();
    for (name, value) in fields {
        record.insert(name.to_string(), value);
    }
    record
}

fn feed_all(records: Vec<Record>) -> Summarizer {
    let mut summarizer = Summarizer::new();
    for record in &records {
        summarizer.next(record, &plus);
    }
    summarizer
}

fn average(sum: f64, count: u64) -> String {
    format!("{:.4}", sum / count as f64)
}

fn digest(summary: &Summary) -> Vec<u128> {
    vec![
        summary.count as u128,
        summary.null_count as u128,
        summary.obj_count as u128,
        summary.num.count as u128,
        summary.num.min as u128,
        summary.num.max as u128,
        summary.string.count as u128,
        summary.string.min_len as u128,
        summary.string.max_len as u128,
        summary.string.sum_len,
        summary.boolean.count as u128,
        summary.boolean.num_true as u128,
        summary.boolean.num_false as u128,
        summary.array.count as u128,
        summary.array.min as u128,
        summary.array.max as u128,
        summary.array.sum,
    ]
}

#[test]
fn a_new_summarizer_has_seen_nothing() {
    let summarizer = Summarizer::new();
    assert_eq!(summarizer.num_records(), 0);
    assert!(summarizer.names().is_empty());
    assert!(summarizer.results().is_empty());
    assert!(summarizer.get("a").is_none());
}

#[test]
fn every_record_is_counted() {
    let mut summarizer = Summarizer::new();
    for seen in 0..25u64 {
        let fields = match seen % 3 {
            0 => Vec::new(),
            1 => vec![("a", number(seen as f64))],
            _ => vec![("b", Value::Null), ("c", text("x")), ("a", Value::Boolean(true))],
        };
        summarizer.next(&record(fields), &plus);
        assert_eq!(summarizer.num_records(), seen + 1);
    }
}

#[test]
fn an_empty_record_is_counted_and_starts_no_field() {
    let mut summarizer = Summarizer::new();
    summarizer.next(&Record::new(), &plus);
    summarizer.next(&Record::new(), &plus);
    assert_eq!(summarizer.num_records(), 2);
    assert!(summarizer.names().is_empty());
    assert!(summarizer.results().is_empty());
}

#[test]
fn three_numbers_in_one_field() {
    let summarizer = feed_all(vec![
        record(vec![("a", number(1.0))]),
        record(vec![("a", number(5.0))]),
        record(vec![("a", number(3.0))]),
    ]);
    assert_eq!(summarizer.num_records(), 3);
    let a = summarizer.get("a").unwrap();
    assert_eq!(a.count, 3);
    assert_eq!(a.num.count, 3);
    assert_eq!(f64::from_bits(a.num.min), 1.0);
    assert_eq!(f64::from_bits(a.num.max), 5.0);
    assert_eq!(f64::from_bits(a.num.sum), 9.0);
    assert_eq!(average(f64::from_bits(a.num.sum), a.num.count), "3.0000");
}

#[test]
fn two_strings_in_one_field() {
    let summarizer =
        feed_all(vec![record(vec![("s", text("hi"))]), record(vec![("s", text("hello"))])]);
    let s = summarizer.get("s").unwrap();
    assert_eq!(s.string.count, 2);
    assert_eq!(s.string.min_word, "hi");
    assert_eq!(s.string.min_len, 2);
    assert_eq!(s.string.max_word, "hello");
    assert_eq!(s.string.max_len, 5);
    assert_eq!(average(s.string.sum_len as f64, s.string.count), "3.5000");
}

#[test]
fn three_booleans_in_one_field() {
    let summarizer = feed_all(vec![
        record(vec![("b", Value::Boolean(true))]),
        record(vec![("b", Value::Boolean(false))]),
        record(vec![("b", Value::Boolean(true))]),
    ]);
    let b = summarizer.get("b").unwrap();
    assert_eq!(b.boolean.count, 3);
    assert_eq!(b.boolean.num_true, 2);
    assert_eq!(b.boolean.num_false, 1);
}

#[test]
fn two_arrays_in_one_field() {
    let summarizer = feed_all(vec![
        record(vec![("arr", Value::Array(vec![number(1.0), number(2.0), number(3.0)]))]),
        record(vec![("arr", Value::Array(Vec::new()))]),
    ]);
    let arr = summarizer.get("arr").unwrap();
    assert_eq!(arr.array.count, 2);
    assert_eq!(arr.array.min, 0);
    assert_eq!(arr.array.max, 3);
    assert_eq!(arr.array.sum, 3);
    assert_eq!(average(arr.array.sum as f64, arr.array.count), "1.5000");
    assert_eq!(arr.num.count, 0);
}

#[test]
fn null_and_object_in_one_field() {
    let summarizer = feed_all(vec![
        record(vec![("x", Value::Null)]),
        record(vec![("x", Value::Object(record(vec![("y", number(1.0))])))]),
    ]);
    let x = summarizer.get("x").unwrap();
    assert_eq!(x.count, 2);
    assert_eq!(x.null_count, 1);
    assert_eq!(x.obj_count, 1);
    assert_eq!(x.num.count, 0);
    assert_eq!(x.string.count, 0);
    assert_eq!(x.boolean.count, 0);
    assert_eq!(x.array.count, 0);
    assert!(summarizer.get("y").is_none());
    assert_eq!(summarizer.names().len(), 1);
}

#[test]
fn a_strict_run_ends_at_the_line_that_gave_no_record() {
    let mut summarizer = Summarizer::new();
    let first = summarizer.feed(0, Ok(record(vec![("a", number(1.0))])), Policy::Strict, &plus);
    assert_eq!(first, Ok(()));
    let second = summarizer.feed(1, Err(LineError::Unparseable), Policy::Strict, &plus);
    assert_eq!(second, Err(Failure { line: 1, error: LineError::Unparseable }));
    assert_eq!(summarizer.num_records(), 1);
    assert_eq!(summarizer.get("a").unwrap().count, 1);
}

#[test]
fn a_lenient_run_passes_over_the_line_that_gave_no_record() {
    let mut summarizer = Summarizer::new();
    let lines = vec![
        Ok(record(vec![("a", number(1.0))])),
        Err(LineError::Unparseable),
        Err(LineError::NotAnObject),
        Ok(record(vec![("a", number(2.0))])),
        Err(LineError::Unreadable),
    ];
    for (line, parsed) in lines.into_iter().enumerate() {
        assert_eq!(summarizer.feed(line, parsed, Policy::Lenient, &plus), Ok(()));
    }
    assert_eq!(summarizer.num_records(), 2);
    assert_eq!(summarizer.get("a").unwrap().num.count, 2);
    assert_eq!(f64::from_bits(summarizer.get("a").unwrap().num.sum), 3.0);
}

#[test]
fn a_failure_names_the_line_and_the_reason() {
    for error in [LineError::Unreadable, LineError::Unparseable, LineError::NotAnObject] {
        let mut summarizer = Summarizer::new();
        let outcome = summarizer.feed(17, Err(error), Policy::Strict, &plus);
        assert_eq!(outcome, Err(Failure { line: 17, error }));
        assert_eq!(summarizer.num_records(), 0);
        assert!(summarizer.names().is_empty());
    }
}

#[test]
fn a_record_is_taken_in_under_either_policy() {
    for policy in [Policy::Strict, Policy::Lenient] {
        let mut summarizer = Summarizer::new();
        let outcome = summarizer.feed(0, Ok(record(vec![("k", Value::Null)])), policy, &plus);
        assert_eq!(outcome, Ok(()));
        assert_eq!(summarizer.num_records(), 1);
        assert_eq!(summarizer.get("k").unwrap().null_count, 1);
    }
}

#[test]
fn fields_are_named_in_the_order_of_their_first_occurrence() {
    let summarizer = feed_all(vec![
        record(vec![("b", Value::Null)]),
        record(vec![("a", Value::Null), ("b", Value::Null)]),
        record(vec![("c", Value::Null), ("a", Value::Null)]),
    ]);
    let names: Vec<&str> = summarizer.names().iter().map(|name| name.as_str()).collect();
    assert_eq!(names, vec!["b", "a", "c"]);
    let counts: Vec<u64> = summarizer.results().iter().map(|summary| summary.count).collect();
    assert_eq!(counts, vec![2, 2, 1]);
}

#[test]
fn a_field_that_is_missing_from_a_record_is_left_alone() {
    let summarizer = feed_all(vec![
        record(vec![("a", number(1.0)), ("b", text("x"))]),
        record(vec![("b", text("yy"))]),
        record(Vec::new()),
        record(vec![("a", number(2.0))]),
    ]);
    assert_eq!(summarizer.num_records(), 4);
    assert_eq!(summarizer.get("a").unwrap().count, 2);
    assert_eq!(summarizer.get("b").unwrap().count, 2);
    assert_eq!(f64::from_bits(summarizer.get("a").unwrap().num.sum), 3.0);
    assert_eq!(summarizer.get("b").unwrap().string.sum_len, 3);
    assert!(summarizer.get("c").is_none());
}

#[test]
fn a_field_can_hold_values_of_several_kinds() {
    let summarizer = feed_all(vec![
        record(vec![("v", number(1.0))]),
        record(vec![("v", text("one"))]),
        record(vec![("v", Value::Null)]),
        record(vec![("v", Value::Boolean(true))]),
        record(vec![("v", Value::Array(vec![Value::Null]))]),
        record(vec![("v", Value::Object(Record::new()))]),
        record(vec![("v", number(-1.0))]),
    ]);
    let v = summarizer.get("v").unwrap();
    assert_eq!(v.count, 7);
    assert_eq!(
        (v.null_count, v.obj_count, v.num.count, v.string.count, v.boolean.count, v.array.count),
        (1, 1, 2, 1, 1, 1)
    );
    assert_eq!(f64::from_bits(v.num.min), -1.0);
    assert_eq!(f64::from_bits(v.num.max), 1.0);
}

#[test]
fn no_field_occurs_more_often_than_there_are_records() {
    let summarizer = feed_all(vec![
        record(vec![("a", Value::Null), ("b", Value::Null)]),
        record(vec![("a", Value::Null)]),
        record(vec![("a", Value::Null), ("c", Value::Null)]),
    ]);
    for summary in summarizer.results() {
        assert!(summary.count <= summarizer.num_records());
        assert!(summary.count >= 1);
    }
}

#[test]
fn reading_twice_gives_the_same() {
    let summarizer = feed_all(vec![
        record(vec![("a", number(1.5)), ("s", text("abc"))]),
        record(vec![("a", number(-2.0)), ("t", Value::Boolean(true))]),
    ]);
    assert_eq!(summarizer.num_records(), summarizer.num_records());
    assert_eq!(summarizer.names(), summarizer.names());
    let once: Vec<Vec<u128>> = summarizer.results().iter().map(digest).collect();
    let again: Vec<Vec<u128>> = summarizer.results().iter().map(digest).collect();
    assert_eq!(once, again);
    assert_eq!(digest(summarizer.get("a").unwrap()), digest(summarizer.get("a").unwrap()));
    assert_eq!(summarizer.get("s").unwrap().string.min_word, "abc");
    assert_eq!(summarizer.get("s").unwrap().string.min_word, "abc");
    assert_eq!(summarizer.num_records(), 2);
}

#[test]
fn results_and_get_give_the_same_summaries() {
    let summarizer = feed_all(vec![
        record(vec![("a", number(1.5)), ("s", text("abc"))]),
        record(vec![("s", text("z")), ("a", Value::Null)]),
    ]);
    let names = summarizer.names();
    let results = summarizer.results();
    assert_eq!(names.len(), results.len());
    for (name, summary) in names.iter().zip(results.iter()) {
        assert_eq!(digest(summary), digest(summarizer.get(name).unwrap()));
    }
}

fn stream() -> Vec<Vec<(&'static str, Value)>> {
    vec![
        vec![("n", number(4.0)), ("s", text("four")), ("b", Value::Boolean(true))],
        vec![("n", number(-1.5)), ("arr", Value::Array(vec![Value::Null, Value::Null, Value::Null]))],
        vec![],
        vec![("s", text("a")), ("n", number(8.0)), ("arr", Value::Array(Vec::new()))],
        vec![("b", Value::Boolean(false)), ("x", Value::Null), ("s", text("eleven"))],
        vec![("n", number(2.0)), ("x", Value::Object(Record::new())), ("s", text("xy"))],
    ]
}

#[test]
fn the_order_of_the_records_does_not_matter() {
    let orders: [[usize; 6]; 4] =
        [[0, 1, 2, 3, 4, 5], [5, 4, 3, 2, 1, 0], [2, 0, 4, 1, 5, 3], [3, 5, 1, 4, 0, 2]];
    let mut digests = Vec::new();
    for order in orders {
        let mut summarizer = Summarizer::new();
        for at in order {
            summarizer.next(&record(stream().swap_remove(at)), &plus);
        }
        assert_eq!(summarizer.num_records(), 6);
        let mut fields: Vec<(String, Vec<u128>)> = summarizer
            .names()
            .iter()
            .zip(summarizer.results().iter())
            .map(|(name, summary)| (name.clone(), digest(summary)))
            .collect();
        fields.sort();
        assert_eq!(f64::from_bits(summarizer.get("n").unwrap().num.sum), 12.5);
        digests.push(fields);
    }
    assert_eq!(digests[0].len(), 5);
    assert_eq!(digests[0], digests[1]);
    assert_eq!(digests[0], digests[2]);
    assert_eq!(digests[0], digests[3]);
}
