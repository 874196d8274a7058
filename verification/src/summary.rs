//! The statistics of one field.

use crate::array::ArraySummary;
use crate::boolean::{lemma_bool_any_order, BoolStats, BoolSummary};
use crate::length::{lemma_len_any_order, LenStats};
use crate::number::{is_nan, lemma_num_any_order, rank, NumStats, NumSummary};
use crate::order::lemma_filter_map_any_order;
use crate::text::{lemma_text_any_order, StringSummary, TextStats};
use crate::value::{Datum, Value};
use vstd::prelude::*;

verus! {

/// Running statistics of the values seen in one field: how many there were,
/// how many of them were null or an object, and one accumulator for each of
/// the other kinds.
pub struct Summary {
    /// How many values were seen.
    pub count: u64,
    /// How many of them were null.
    pub null_count: u64,
    /// How many of them were objects.
    pub obj_count: u64,
    /// The numbers among them.
    pub num: NumSummary,
    /// The strings among them.
    pub string: StringSummary,
    /// The booleans among them.
    pub boolean: BoolSummary,
    /// The arrays among them.
    pub array: ArraySummary,
}

/// The statistics of a `Summary`, in unbounded numbers.
#[verifier::ext_equal]
pub struct FieldStats {
    pub count: nat,
    pub null_count: nat,
    pub obj_count: nat,
    pub num: NumStats,
    pub string: TextStats,
    pub boolean: BoolStats,
    pub array: LenStats,
}

impl FieldStats {
    /// Before the first value.
    pub open spec fn empty() -> FieldStats {
        FieldStats {
            count: 0,
            null_count: 0,
            obj_count: 0,
            num: NumStats::empty(),
            string: TextStats::empty(),
            boolean: BoolStats::empty(),
            array: LenStats::empty(),
        }
    }

    /// After one more value: it is counted, and then counted as null or as an
    /// object, or handed to the accumulator of its kind. Nothing else changes.
    pub open spec fn observe(self, value: Datum) -> FieldStats {
        let counted = FieldStats { count: self.count + 1, ..self };
        match value {
            Datum::Null => FieldStats { null_count: self.null_count + 1, ..counted },
            Datum::Object => FieldStats { obj_count: self.obj_count + 1, ..counted },
            Datum::Number(number) => FieldStats { num: self.num.observe(number), ..counted },
            Datum::String(word) => FieldStats { string: self.string.observe(word), ..counted },
            Datum::Boolean(value) => FieldStats { boolean: self.boolean.observe(value), ..counted },
            Datum::Array(length) => FieldStats { array: self.array.observe(length), ..counted },
        }
    }

    /// After all of `values`, one after the other.
    pub open spec fn observe_all(self, values: Seq<Datum>) -> FieldStats {
        values.fold_left(self, |stats: FieldStats, value: Datum| stats.observe(value))
    }

    /// Every value counted is counted under exactly one kind.
    pub open spec fn balanced(self) -> bool {
        self.count == self.null_count + self.obj_count + self.num.count + self.string.count
            + self.boolean.count + self.array.count
    }

    /// The two agree in all that does not depend on which of several equal
    /// extremes came first: in every count, sum and length, in the tally of
    /// booleans, and in the ranks of the least and the greatest number. The
    /// recorded words may differ, and a zero may differ in its sign.
    pub open spec fn agrees(self, other: FieldStats) -> bool {
        &&& self.count == other.count
        &&& self.null_count == other.null_count
        &&& self.obj_count == other.obj_count
        &&& self.num.count == other.num.count
        &&& rank(self.num.min) == rank(other.num.min)
        &&& rank(self.num.max) == rank(other.num.max)
        &&& self.string.lengths() == other.string.lengths()
        &&& self.boolean == other.boolean
        &&& self.array == other.array
    }
}

/// The number that `value` is, if it is one.
pub open spec fn as_number(value: Datum) -> Option<u64> {
    match value {
        Datum::Number(number) => Some(number),
        _ => None,
    }
}

/// The string that `value` is, if it is one.
pub open spec fn as_word(value: Datum) -> Option<Seq<char>> {
    match value {
        Datum::String(word) => Some(word),
        _ => None,
    }
}

/// The boolean that `value` is, if it is one.
pub open spec fn as_boolean(value: Datum) -> Option<bool> {
    match value {
        Datum::Boolean(value) => Some(value),
        _ => None,
    }
}

/// The length of the array that `value` is, if it is one.
pub open spec fn as_length(value: Datum) -> Option<nat> {
    match value {
        Datum::Array(length) => Some(length),
        _ => None,
    }
}

/// The numbers among `values`, in their order.
pub open spec fn numbers_in(values: Seq<Datum>) -> Seq<u64> {
    values.filter_map(|value: Datum| as_number(value))
}

/// The strings among `values`, in their order.
pub open spec fn words_in(values: Seq<Datum>) -> Seq<Seq<char>> {
    values.filter_map(|value: Datum| as_word(value))
}

/// The booleans among `values`, in their order.
pub open spec fn booleans_in(values: Seq<Datum>) -> Seq<bool> {
    values.filter_map(|value: Datum| as_boolean(value))
}

/// The lengths of the arrays among `values`, in their order.
pub open spec fn lengths_in(values: Seq<Datum>) -> Seq<nat> {
    values.filter_map(|value: Datum| as_length(value))
}

/// No number among `values` is one of the bit patterns that stand for none.
pub open spec fn free_of_nan(values: Seq<Datum>) -> bool {
    forall|i: int|
        0 <= i < values.len() ==> (#[trigger] values[i] matches Datum::Number(number) ==> !is_nan(
            number,
        ))
}

/// The statistics of `values`, said kind by kind.
pub open spec fn by_kind(values: Seq<Datum>) -> FieldStats {
    FieldStats {
        count: values.len(),
        null_count: values.to_multiset().count(Datum::Null),
        obj_count: values.to_multiset().count(Datum::Object),
        num: NumStats::empty().observe_all(numbers_in(values)),
        string: TextStats::empty().observe_all(words_in(values)),
        boolean: BoolStats::empty().observe_all(booleans_in(values)),
        array: LenStats::empty().observe_all(lengths_in(values)),
    }
}

impl View for Summary {
    type V = FieldStats;

    open spec fn view(&self) -> FieldStats {
        FieldStats {
            count: self.count as nat,
            null_count: self.null_count as nat,
            obj_count: self.obj_count as nat,
            num: self.num@,
            string: self.string@,
            boolean: self.boolean@,
            array: self.array@,
        }
    }
}

impl Summary {
    /// The accumulators are well formed, and the count is the sum of the
    /// counts of the six kinds.
    pub open spec fn wf(&self) -> bool {
        &&& self.string.wf()
        &&& self.boolean.wf()
        &&& self.array.wf()
        &&& self@.balanced()
    }

    /// The summary of a field of which no value was seen.
    pub fn new() -> (summary: Summary)
        ensures
            summary.wf(),
            summary@ == FieldStats::empty(),
            summary.num.sum == 0,
    {
        Summary {
            count: 0,
            null_count: 0,
            obj_count: 0,
            num: NumSummary::new(),
            string: StringSummary::new(),
            boolean: BoolSummary::new(),
            array: ArraySummary::new(),
        }
    }

    /// Takes in one value. `plus` adds two numbers; it is called only for a
    /// number, once, on the total of the numbers so far and that number, and
    /// what it returns is the new total.
    pub fn next<F: Fn(u64, u64) -> u64>(&mut self, value: &Value, plus: &F)
        requires
            old(self).wf(),
            old(self).count < u64::MAX,
            value@ matches Datum::Number(number) ==> call_requires(
                *plus,
                (old(self).num.sum, number),
            ),
        ensures
            final(self).wf(),
            final(self)@ == old(self)@.observe(value@),
            match value@ {
                Datum::Number(number) => call_ensures(
                    *plus,
                    (old(self).num.sum, number),
                    final(self).num.sum,
                ),
                _ => final(self).num.sum == old(self).num.sum,
            },
    {
        self.count += 1;
        match value {
            Value::Number(number) => self.num.next(*number, plus),
            Value::String(word) => self.string.next(word.as_str()),
            Value::Boolean(value) => self.boolean.next(*value),
            Value::Null => self.null_count += 1,
            Value::Array(elements) => self.array.next(elements),
            Value::Object(_) => self.obj_count += 1,
        }
    }
}

/// The count of a summary is the sum of the counts of the six kinds,
/// whatever values it was fed.
pub proof fn lemma_field_balanced(values: Seq<Datum>)
    ensures
        FieldStats::empty().observe_all(values).balanced(),
        FieldStats::empty().observe_all(values).count == values.len(),
    decreases values.len(),
{
    if values.len() > 0 {
        lemma_field_balanced(values.drop_last());
    }
}

/// A summary holds of its values what separate accumulators would hold of the
/// values of each kind: it counts the values, the nulls and the objects among
/// them, and its four accumulators hold the statistics of the numbers, of the
/// strings, of the booleans and of the arrays among them, each taken in order.
pub proof fn lemma_field_by_kind(values: Seq<Datum>)
    ensures
        FieldStats::empty().observe_all(values) == by_kind(values),
    decreases values.len(),
{
    if values.len() == 0 {
        values.to_multiset_ensures();
        assert(!values.contains(Datum::Null) && !values.contains(Datum::Object));
    } else {
        let before = values.drop_last();
        let last = values.last();
        lemma_field_by_kind(before);
        before.to_multiset_ensures();
        assert(values == before.push(last));
        match last {
            Datum::Number(number) => {
                assert((numbers_in(before) + seq![number]).drop_last() =~= numbers_in(before));
            },
            Datum::String(word) => {
                assert((words_in(before) + seq![word]).drop_last() =~= words_in(before));
            },
            Datum::Boolean(value) => {
                assert((booleans_in(before) + seq![value]).drop_last() =~= booleans_in(before));
            },
            Datum::Array(length) => {
                assert((lengths_in(before) + seq![length]).drop_last() =~= lengths_in(before));
            },
            _ => {},
        }
        assert(FieldStats::empty().observe_all(values) =~= by_kind(values));
    }
}

/// What a summary holds does not depend on the order of its values, but for
/// the choice among equal extremes: fed the same values in another order, of
/// which no number is one of the bit patterns that stand for none, it agrees
/// with itself in every count, sum, least and greatest length, in the tally
/// of booleans, and in the ranks of the least and the greatest number.
pub proof fn lemma_field_any_order(one: Seq<Datum>, other: Seq<Datum>)
    requires
        one.to_multiset() == other.to_multiset(),
        free_of_nan(one),
    ensures
        FieldStats::empty().observe_all(one).agrees(FieldStats::empty().observe_all(other)),
{
    lemma_field_by_kind(one);
    lemma_field_by_kind(other);
    one.to_multiset_ensures();
    other.to_multiset_ensures();
    lemma_filter_map_any_order(one, other, |value: Datum| as_number(value));
    assert forall|i: int| 0 <= i < numbers_in(one).len() implies !is_nan(
        #[trigger] numbers_in(one)[i],
    ) by {
        let number = numbers_in(one)[i];
        assert(numbers_in(one).contains(number));
        one.lemma_filter_map_contains(|value: Datum| as_number(value), number);
        let source = choose|source: Datum| #[trigger]
            one.contains(source) && as_number(source) == Some(number);
        assert(one[one.index_of(source)] == Datum::Number(number));
    }
    lemma_num_any_order(numbers_in(one), numbers_in(other));
    lemma_filter_map_any_order(one, other, |value: Datum| as_word(value));
    lemma_text_any_order(words_in(one), words_in(other));
    lemma_filter_map_any_order(one, other, |value: Datum| as_boolean(value));
    lemma_bool_any_order(booleans_in(one), booleans_in(other));
    lemma_filter_map_any_order(one, other, |value: Datum| as_length(value));
    lemma_len_any_order(lengths_in(one), lengths_in(other));
}

} // verus!
