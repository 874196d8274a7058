use json_summarizer::{ArraySummary, BoolSummary, StringSummary, Value};

#[test]
fn a_new_bool_summary_is_all_zero() {
    let summary = BoolSummary::new();
    assert_eq!((summary.count, summary.num_true, summary.num_false), (0, 0, 0));
}

#[test]
fn bool_summary_tallies_each_value() {
    let values = [true, false, false, true, true, false, true, true];
    let mut summary = BoolSummary::new();
    for (seen, value) in values.iter().enumerate() {
        summary.next(*value);
        assert_eq!(summary.count, seen as u64 + 1);
        assert_eq!(summary.num_true + summary.num_false, summary.count);
    }
    assert_eq!(summary.num_true, 5);
    assert_eq!(summary.num_false, 3);
}

#[test]
fn bool_summary_of_one_kind_only() {
    let mut summary = BoolSummary::new();
    for _ in 0..4 {
        summary.next(false);
    }
    assert_eq!((summary.count, summary.num_true, summary.num_false), (4, 0, 4));
}

#[test]
fn bool_tally_does_not_depend_on_the_order() {
    let mut one = BoolSummary::new();
    let mut other = BoolSummary::new();
    for value in [true, false, false] {
        one.next(value);
    }
    for value in [false, true, false] {
        other.next(value);
    }
    assert_eq!(
        (one.count, one.num_true, one.num_false),
        (other.count, other.num_true, other.num_false)
    );
}

#[test]
fn a_new_string_summary_is_empty() {
    let summary = StringSummary::new();
    assert_eq!(summary.count, 0);
    assert_eq!(summary.min_len, 0);
    assert_eq!(summary.max_len, 0);
    assert_eq!(summary.min_word, "");
    assert_eq!(summary.max_word, "");
    assert_eq!(summary.sum_len, 0);
}

#[test]
fn the_first_string_is_shortest_and_longest() {
    let mut summary = StringSummary::new();
    summary.next("only");
    assert_eq!(summary.count, 1);
    assert_eq!(summary.min_len, 4);
    assert_eq!(summary.max_len, 4);
    assert_eq!(summary.min_word, "only");
    assert_eq!(summary.max_word, "only");
    assert_eq!(summary.sum_len, 4);
}

#[test]
fn the_first_string_stays_until_one_is_strictly_beyond() {
    let mut summary = StringSummary::new();
    summary.next("abc");
    summary.next("abcd");
    assert_eq!(summary.min_word, "abc");
    assert_eq!(summary.max_word, "abcd");
    summary.next("ab");
    assert_eq!(summary.min_word, "ab");
    assert_eq!(summary.max_word, "abcd");
}

#[test]
fn string_summary_holds_lengths_and_words() {
    let words = ["pear", "fig", "banana", "kiwi", "plum", "cherry"];
    let mut summary = StringSummary::new();
    for word in words {
        summary.next(word);
    }
    assert_eq!(summary.count, 6);
    assert_eq!(summary.min_len, 3);
    assert_eq!(summary.min_word, "fig");
    assert_eq!(summary.max_len, 6);
    assert_eq!(summary.max_word, "banana");
    assert_eq!(summary.sum_len, 27);
    assert_eq!(summary.min_word.len() as u64, summary.min_len);
    assert_eq!(summary.max_word.len() as u64, summary.max_len);
    let average = summary.sum_len as f64 / summary.count as f64;
    assert_eq!(format!("{:.4}", average), "4.5000");
}

#[test]
fn of_strings_of_one_length_the_first_is_kept() {
    let mut summary = StringSummary::new();
    for word in ["bb", "aa", "cccc", "dddd", "aa"] {
        summary.next(word);
    }
    assert_eq!(summary.min_word, "bb");
    assert_eq!(summary.max_word, "cccc");
    assert_eq!(summary.min_len, 2);
    assert_eq!(summary.max_len, 4);
}

#[test]
fn string_summary_takes_the_empty_string() {
    let mut summary = StringSummary::new();
    summary.next("x");
    summary.next("");
    assert_eq!(summary.count, 2);
    assert_eq!(summary.min_len, 0);
    assert_eq!(summary.min_word, "");
    assert_eq!(summary.max_word, "x");
    assert_eq!(summary.sum_len, 1);
}

#[test]
fn string_lengths_are_counted_in_bytes() {
    let mut summary = StringSummary::new();
    summary.next("\u{e9}t\u{e9}");
    summary.next("abcd");
    assert_eq!(summary.min_len, 4);
    assert_eq!(summary.max_len, 5);
    assert_eq!(summary.max_word, "\u{e9}t\u{e9}");
    assert_eq!(summary.min_word, "abcd");
    assert_eq!(summary.sum_len, 9);
}

#[test]
fn string_lengths_do_not_depend_on_the_order() {
    let forward = ["a", "bbb", "cc", "dddd", "e"];
    let mut backward = forward;
    backward.reverse();
    let mut one = StringSummary::new();
    let mut other = StringSummary::new();
    for word in forward {
        one.next(word);
    }
    for word in backward {
        other.next(word);
    }
    assert_eq!(
        (one.count, one.min_len, one.max_len, one.sum_len),
        (other.count, other.min_len, other.max_len, other.sum_len)
    );
    assert_eq!(one.min_word, "a");
    assert_eq!(other.min_word, "e");
}

fn array_of(length: usize) -> Vec<Value> {
    let mut elements = Vec::new();
    for _ in 0..length {
        elements.push(Value::Null);
    }
    elements
}

#[test]
fn a_new_array_summary_is_all_zero() {
    let summary = ArraySummary::new();
    assert_eq!((summary.count, summary.min, summary.max, summary.sum), (0, 0, 0, 0));
}

#[test]
fn the_first_array_is_shortest_and_longest() {
    let mut summary = ArraySummary::new();
    summary.next(&array_of(5));
    assert_eq!((summary.count, summary.min, summary.max, summary.sum), (1, 5, 5, 5));
}

#[test]
fn array_summary_holds_the_statistics_of_the_lengths() {
    let mut summary = ArraySummary::new();
    for length in [4, 2, 9, 2, 0, 7] {
        summary.next(&array_of(length));
    }
    assert_eq!(summary.count, 6);
    assert_eq!(summary.min, 0);
    assert_eq!(summary.max, 9);
    assert_eq!(summary.sum, 24);
    let average = summary.sum as f64 / summary.count as f64;
    assert_eq!(format!("{:.4}", average), "4.0000");
}

#[test]
fn array_summary_does_not_look_into_the_arrays() {
    let mut summary = ArraySummary::new();
    summary.next(&vec![Value::Array(array_of(10)), Value::String("long text".to_string())]);
    assert_eq!((summary.count, summary.min, summary.max, summary.sum), (1, 2, 2, 2));
}

#[test]
fn array_statistics_do_not_depend_on_the_order() {
    let mut one = ArraySummary::new();
    let mut other = ArraySummary::new();
    for length in [3, 1, 4, 1, 5] {
        one.next(&array_of(length));
    }
    for length in [5, 1, 4, 1, 3] {
        other.next(&array_of(length));
    }
    assert_eq!(
        (one.count, one.min, one.max, one.sum),
        (other.count, other.min, other.max, other.sum)
    );
}
