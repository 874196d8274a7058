//! The summarizer: the statistics of every field of the records fed to it.

use crate::names::NameIndex;
use crate::order::lemma_filter_map_any_order;
use crate::summary::{lemma_field_any_order, FieldStats, Summary};
use crate::value::{Datum, Record, Value};
use vstd::prelude::*;

verus! {

/// What a summarizer holds: how many records it was fed, and for each field
/// name that occurred in one of them the statistics of that field.
#[verifier::ext_equal]
pub struct Totals {
    pub records: nat,
    pub fields: Map<Seq<char>, FieldStats>,
}

impl Totals {
    /// Before the first record.
    pub open spec fn empty() -> Totals {
        Totals { records: 0, fields: Map::empty() }
    }

    /// The statistics of the field `name`; those of no value if the name has
    /// not occurred.
    pub open spec fn field(self, name: Seq<char>) -> FieldStats {
        if self.fields.contains_key(name) {
            self.fields[name]
        } else {
            FieldStats::empty()
        }
    }

    /// After one more record: it is counted, and each of its fields takes in
    /// its value. A name that has not occurred before starts from the
    /// statistics of no value; a field that is not in the record is left as it is.
    pub open spec fn apply(self, record: Map<Seq<char>, Datum>) -> Totals {
        Totals {
            records: self.records + 1,
            fields: Map::new(
                |name: Seq<char>| self.fields.contains_key(name) || record.contains_key(name),
                |name: Seq<char>|
                    if record.contains_key(name) {
                        self.field(name).observe(record[name])
                    } else {
                        self.fields[name]
                    },
            ),
        }
    }

    /// After all of `records`, one after the other.
    pub open spec fn apply_all(self, records: Seq<Map<Seq<char>, Datum>>) -> Totals {
        records.fold_left(self, |totals: Totals, record: Map<Seq<char>, Datum>| totals.apply(record))
    }
}

/// The value that the field `name` has in `record`, if the record has that field.
pub open spec fn value_in(record: Map<Seq<char>, Datum>, name: Seq<char>) -> Option<Datum> {
    if record.contains_key(name) {
        Some(record[name])
    } else {
        None
    }
}

/// The values that the field `name` has in `records`, in their order.
pub open spec fn values_of(records: Seq<Map<Seq<char>, Datum>>, name: Seq<char>) -> Seq<Datum> {
    records.filter_map(|record: Map<Seq<char>, Datum>| value_in(record, name))
}

/// A record can be applied field by field: with the fields `done` already
/// applied, one more field `name` changes the statistics of that name only,
/// and they take in the value of the field from where they stood before the
/// record.
pub proof fn lemma_apply_field(
    totals: Totals,
    record: Map<Seq<char>, Datum>,
    done: Set<Seq<char>>,
    name: Seq<char>,
)
    requires
        record.contains_key(name),
        !done.contains(name),
    ensures
        totals.apply(record.restrict(done)).field(name) == totals.field(name),
        totals.apply(record.restrict(done.insert(name))).fields == totals.apply(
            record.restrict(done),
        ).fields.insert(name, totals.field(name).observe(record[name])),
{
    assert(totals.apply(record.restrict(done.insert(name))).fields =~= totals.apply(
        record.restrict(done),
    ).fields.insert(name, totals.field(name).observe(record[name])));
}

/// How a total of numbers moves when a field takes in `value`: a number is
/// added to it by `plus`, any other value leaves it as it is.
pub open spec fn total_moves<F: Fn(u64, u64) -> u64>(
    plus: &F,
    before: u64,
    value: Datum,
    after: u64,
) -> bool {
    match value {
        Datum::Number(number) => call_ensures(*plus, (before, number), after),
        _ => after == before,
    }
}

/// Per-field statistics of a stream of records.
pub struct Summarizer {
    count: u64,
    names: NameIndex,
    summaries: Vec<Summary>,
}

impl View for Summarizer {
    type V = Totals;

    closed spec fn view(&self) -> Totals {
        Totals {
            records: self.count as nat,
            fields: Map::new(
                |name: Seq<char>| self.names@.contains(name),
                |name: Seq<char>| self.summaries@[self.names@.index_of(name)]@,
            ),
        }
    }
}

impl Summarizer {
    /// Every name has its summary, and every summary is well formed.
    spec fn paired(&self) -> bool {
        &&& self.names.wf()
        &&& self.names@.len() == self.summaries@.len()
        &&& forall|i: int| 0 <= i < self.summaries@.len() ==> (#[trigger] self.summaries@[i]).wf()
    }

    /// Every name has its well-formed summary, and no field has occurred more
    /// often than there were records.
    pub closed spec fn wf(&self) -> bool {
        &&& self.paired()
        &&& forall|name: Seq<char>| #[trigger]
            self@.fields.contains_key(name) ==> self@.fields[name].count <= self.count
    }

    /// The field names in the order in which they first occurred.
    pub closed spec fn order(&self) -> Seq<Seq<char>> {
        self.names@
    }

    /// The running total of the numbers seen in the field `name`, as the
    /// additions handed to `next` computed it; 0 if the name has not occurred.
    pub closed spec fn number_total(&self, name: Seq<char>) -> u64 {
        if self.names@.contains(name) {
            self.summaries@[self.names@.index_of(name)].num.sum
        } else {
            0
        }
    }

    /// The names in `order` are distinct, and they are the names that have
    /// statistics.
    pub proof fn lemma_order(&self)
        requires
            self.wf(),
        ensures
            self.order().no_duplicates(),
            self@.fields.dom() == self.order().to_set(),
    {
        self.names.lemma_distinct();
        assert(self@.fields.dom() =~= self.order().to_set());
    }

    /// Each summary is the one of the name at its position.
    proof fn lemma_slots(&self)
        requires
            self.paired(),
        ensures
            self.names@.no_duplicates(),
            forall|i: int|
                0 <= i < self.names@.len() ==> {
                    &&& self@.fields.contains_key(#[trigger] self.names@[i])
                    &&& self@.fields[self.names@[i]] == self.summaries@[i]@
                    &&& self.number_total(self.names@[i]) == self.summaries@[i].num.sum
                },
    {
        self.names.lemma_distinct();
        assert forall|i: int| 0 <= i < self.names@.len() implies {
            &&& self@.fields.contains_key(#[trigger] self.names@[i])
            &&& self@.fields[self.names@[i]] == self.summaries@[i]@
            &&& self.number_total(self.names@[i]) == self.summaries@[i].num.sum
        } by {
            let name = self.names@[i];
            assert(self.names@.contains(name));
            assert(self.names@.index_of(name) == i);
        }
    }

    /// The summarizer that was fed no record.
    pub fn new() -> (summarizer: Summarizer)
        ensures
            summarizer.wf(),
            summarizer@ == Totals::empty(),
            summarizer.order() == Seq::<Seq<char>>::empty(),
            forall|name: Seq<char>| summarizer.number_total(name) == 0,
    {
        let summarizer = Summarizer { count: 0, names: NameIndex::new(), summaries: Vec::new() };
        assert(summarizer@.fields =~= Map::<Seq<char>, FieldStats>::empty());
        summarizer
    }

    /// Lets the field `name` take in `value`, starting its summary if the name
    /// has not occurred before.
    fn observe_field<F: Fn(u64, u64) -> u64>(&mut self, name: &String, value: &Value, plus: &F)
        requires
            old(self).paired(),
            old(self)@.field(name@).count < u64::MAX,
            forall|a: u64, b: u64| call_requires(*plus, (a, b)),
        ensures
            final(self).paired(),
            final(self).count == old(self).count,
            final(self).names@ == if old(self).names@.contains(name@) {
                old(self).names@
            } else {
                old(self).names@.push(name@)
            },
            final(self)@.fields == old(self)@.fields.insert(
                name@,
                old(self)@.field(name@).observe(value@),
            ),
            total_moves(
                plus,
                old(self).number_total(name@),
                value@,
                final(self).number_total(name@),
            ),
            forall|other: Seq<char>|
                other != name@ ==> final(self).number_total(other) == old(self).number_total(other),
    {
        proof {
            self.lemma_slots();
        }
        match self.names.find(name.as_str()) {
            Some(i) => {
                assert(self.names@.contains(name@));
                assert(self.names@.index_of(name@) == i);
                self.summaries[i].next(value, plus);
                proof {
                    self.lemma_slots();
                    assert forall|other: Seq<char>| other != name@ implies self.number_total(other)
                        == old(self).number_total(other) by {
                        if self.names@.contains(other) {
                            assert(self.names@.index_of(other) != i);
                        }
                    }
                    assert forall|other: Seq<char>| self.names@.contains(other) implies (
                    #[trigger] self@.fields[other]) == old(self)@.fields.insert(
                        name@,
                        old(self)@.field(name@).observe(value@),
                    )[other] by {
                        if other != name@ {
                            assert(self.names@.index_of(other) != i);
                        }
                    }
                    assert(self@.fields =~= old(self)@.fields.insert(
                        name@,
                        old(self)@.field(name@).observe(value@),
                    ));
                }
            },
            None => {
                let ghost before = self.names@;
                let mut summary = Summary::new();
                summary.next(value, plus);
                self.names.push(name.clone());
                self.summaries.push(summary);
                proof {
                    self.lemma_slots();
                    let last = before.len() as int;
                    assert(self.names@[last] == name@);
                    assert forall|other: Seq<char>|
                        self.names@.contains(other) <==> (other == name@ || before.contains(
                            other,
                        )) by {
                        if before.contains(other) {
                            let at = before.index_of(other);
                            assert(self.names@[at] == other);
                        }
                    }
                    assert forall|other: Seq<char>| before.contains(other) implies self.names@.index_of(
                        other,
                    ) == before.index_of(other) by {
                        let at = before.index_of(other);
                        assert(self.names@[at] == other);
                    }
                    assert(self@.fields =~= old(self)@.fields.insert(
                        name@,
                        old(self)@.field(name@).observe(value@),
                    ));
                }
            },
        }
    }

    /// Takes in one record: counts it, and lets each of its fields take in its
    /// value. `plus` adds two numbers; it is called once for each field of the
    /// record that holds a number, on the total of the numbers of that field so
    /// far and that number, and what it returns is the new total of the field.
    pub fn next<F: Fn(u64, u64) -> u64>(&mut self, record: &Record, plus: &F)
        requires
            old(self).wf(),
            record.wf(),
            old(self)@.records < u64::MAX,
            forall|a: u64, b: u64| call_requires(*plus, (a, b)),
        ensures
            final(self).wf(),
            final(self)@ == old(self)@.apply(record@),
            final(self).order() == old(self).order() + record.keys().filter(
                |name: Seq<char>| !old(self).order().contains(name),
            ),
            forall|name: Seq<char>|
                if record@.contains_key(name) {
                    total_moves(
                        plus,
                        old(self).number_total(name),
                        record@[name],
                        #[trigger] final(self).number_total(name),
                    )
                } else {
                    final(self).number_total(name) == old(self).number_total(name)
                },
    {
        self.count += 1;
        let n = record.len();
        let ghost keys = record.keys();
        let ghost fresh = |name: Seq<char>| !old(self).names@.contains(name);
        proof {
            reveal(Seq::filter);
            assert(self.names@ =~= old(self).names@ + keys.take(0).filter(fresh));
        }
        let mut i: usize = 0;
        while i < n
            invariant
                i <= n,
                n == keys.len(),
                record.wf(),
                keys == record.keys(),
                forall|a: u64, b: u64| call_requires(*plus, (a, b)),
                old(self).wf(),
                old(self).count < u64::MAX,
                self.paired(),
                self.count == old(self).count + 1,
                fresh == |name: Seq<char>| !old(self).names@.contains(name),
                self.names@ == old(self).names@ + keys.take(i as int).filter(fresh),
                self@.fields == old(self)@.apply(
                    record@.restrict(keys.take(i as int).to_set()),
                ).fields,
                forall|name: Seq<char>|
                    if keys.take(i as int).contains(name) {
                        total_moves(
                            plus,
                            old(self).number_total(name),
                            record@[name],
                            #[trigger] self.number_total(name),
                        )
                    } else {
                        self.number_total(name) == old(self).number_total(name)
                    },
            decreases n - i,
        {
            let name = record.key(i);
            let value = record.value(i);
            let ghost done = keys.take(i as int);
            let ghost further = keys.take(i + 1);
            let ghost earlier = *self;
            proof {
                record.lemma_fields();
                assert(further =~= done.push(name@));
                assert forall|other: Seq<char>| further.contains(other) <==> (other == name@
                    || done.contains(other)) by {
                    if done.contains(other) {
                        assert(further[done.index_of(other)] == other);
                    }
                    if other == name@ {
                        assert(further[i as int] == name@);
                    }
                }
                assert(further.to_set() =~= done.to_set().insert(name@));
                assert(record@.contains_key(name@)) by {
                    assert(keys.to_set().contains(keys[i as int]));
                }
                lemma_apply_field(old(self)@, record@, done.to_set(), name@);
            }
            self.observe_field(name, value, plus);
            proof {
                assert(self.names@ =~= old(self).names@ + further.filter(fresh)) by {
                    reveal(Seq::filter);
                    assert(further.drop_last() =~= done);
                    assert(earlier@.fields.contains_key(name@) <==> earlier.names@.contains(name@));
                    assert(old(self)@.fields.contains_key(name@) <==> old(self).names@.contains(
                        name@,
                    ));
                }
                assert forall|other: Seq<char>|
                    if further.contains(other) {
                        total_moves(
                            plus,
                            old(self).number_total(other),
                            record@[other],
                            #[trigger] self.number_total(other),
                        )
                    } else {
                        self.number_total(other) == old(self).number_total(other)
                    } by {
                    if other != name@ {
                        assert(self.number_total(other) == earlier.number_total(other));
                    }
                }
            }
            i += 1;
        }
        proof {
            record.lemma_fields();
            assert(keys.take(n as int) =~= keys);
            assert(record@.restrict(keys.to_set()) =~= record@);
            assert forall|name: Seq<char>| record@.contains_key(name) <==> keys.contains(name) by {
                assert(keys.to_set().contains(name) <==> keys.contains(name));
            }
        }
    }

    /// The number of records taken in.
    pub fn num_records(&self) -> (count: u64)
        ensures
            count == self@.records,
    {
        self.count
    }

    /// The names of the fields, in the order in which they first occurred.
    pub fn names(&self) -> (names: &Vec<String>)
        ensures
            names@.len() == self.order().len(),
            forall|i: int| 0 <= i < names@.len() ==> (#[trigger] names@[i])@ == self.order()[i],
    {
        self.names.names()
    }

    /// The summaries of the fields, each at the position of its name in `names`.
    pub fn results(&self) -> (summaries: &Vec<Summary>)
        requires
            self.wf(),
        ensures
            summaries@.len() == self.order().len(),
            forall|i: int|
                0 <= i < summaries@.len() ==> {
                    &&& (#[trigger] summaries@[i]).wf()
                    &&& summaries@[i]@ == self@.fields[self.order()[i]]
                    &&& summaries@[i].num.sum == self.number_total(self.order()[i])
                },
    {
        proof {
            self.lemma_slots();
        }
        &self.summaries
    }

    /// The summary of the field `name`, if the name has occurred.
    pub fn get(&self, name: &str) -> (summary: Option<&Summary>)
        requires
            self.wf(),
        ensures
            match summary {
                Some(summary) => {
                    &&& self@.fields.contains_key(name@)
                    &&& summary.wf()
                    &&& summary@ == self@.fields[name@]
                    &&& summary.num.sum == self.number_total(name@)
                },
                None => !self@.fields.contains_key(name@),
            },
    {
        proof {
            self.lemma_slots();
        }
        match self.names.find(name) {
            Some(i) => {
                assert(self.names@[i as int] == name@);
                Some(&self.summaries[i])
            },
            None => None,
        }
    }
}

/// A summarizer counts the records that it is fed, whatever they hold.
pub proof fn lemma_record_count(records: Seq<Map<Seq<char>, Datum>>)
    ensures
        Totals::empty().apply_all(records).records == records.len(),
    decreases records.len(),
{
    if records.len() > 0 {
        lemma_record_count(records.drop_last());
    }
}

/// The statistics that a summarizer holds of a field are those of the values
/// that the field has in the records, taken in order; and it holds statistics
/// of exactly the names that occur in a record.
pub proof fn lemma_history(records: Seq<Map<Seq<char>, Datum>>, name: Seq<char>)
    ensures
        Totals::empty().apply_all(records).field(name) == FieldStats::empty().observe_all(
            values_of(records, name),
        ),
        Totals::empty().apply_all(records).fields.contains_key(name) <==> values_of(
            records,
            name,
        ).len() > 0,
    decreases records.len(),
{
    if records.len() > 0 {
        let before = records.drop_last();
        let last = records.last();
        lemma_history(before, name);
        if last.contains_key(name) {
            assert((values_of(before, name) + seq![last[name]]).drop_last() =~= values_of(
                before,
                name,
            ));
        }
    }
}

/// What a summarizer holds does not depend on the order of the records, but
/// for the choice among equal extremes. Fed the same records in another
/// order, of which no number is one of the bit patterns that stand for none,
/// it counts as many records, knows the same names, and agrees with itself on
/// every field in every count, sum, least and greatest length, in the tally
/// of booleans, and in the ranks of the least and the greatest number.
pub proof fn lemma_any_order(
    one: Seq<Map<Seq<char>, Datum>>,
    other: Seq<Map<Seq<char>, Datum>>,
)
    requires
        one.to_multiset() == other.to_multiset(),
        forall|i: int, name: Seq<char>|
            0 <= i < one.len() && (#[trigger] one[i].contains_key(name)) ==> (
            one[i][name] matches Datum::Number(number) ==> !crate::number::is_nan(number)),
    ensures
        Totals::empty().apply_all(one).records == Totals::empty().apply_all(other).records,
        Totals::empty().apply_all(one).fields.dom() == Totals::empty().apply_all(
            other,
        ).fields.dom(),
        forall|name: Seq<char>|
            (#[trigger] Totals::empty().apply_all(one).field(name)).agrees(
                Totals::empty().apply_all(other).field(name),
            ),
{
    lemma_record_count(one);
    lemma_record_count(other);
    one.to_multiset_ensures();
    other.to_multiset_ensures();
    assert forall|name: Seq<char>|
        {
            &&& (#[trigger] Totals::empty().apply_all(one).field(name)).agrees(
                Totals::empty().apply_all(other).field(name),
            )
            &&& values_of(one, name).len() == values_of(other, name).len()
        } by {
        let pick = |record: Map<Seq<char>, Datum>| value_in(record, name);
        lemma_history(one, name);
        lemma_history(other, name);
        lemma_filter_map_any_order(one, other, pick);
        assert forall|i: int| 0 <= i < values_of(one, name).len() implies (#[trigger] values_of(
            one,
            name,
        )[i] matches Datum::Number(number) ==> !crate::number::is_nan(number)) by {
            let value = values_of(one, name)[i];
            assert(values_of(one, name).contains(value));
            one.lemma_filter_map_contains(pick, value);
            let source = choose|source: Map<Seq<char>, Datum>| #[trigger]
                one.contains(source) && pick(source) == Some(value);
            assert(one[one.index_of(source)].contains_key(name));
        }
        lemma_field_any_order(values_of(one, name), values_of(other, name));
    }
    assert forall|name: Seq<char>| #[trigger]
        Totals::empty().apply_all(one).fields.contains_key(name)
            <==> Totals::empty().apply_all(other).fields.contains_key(name) by {
        lemma_history(one, name);
        lemma_history(other, name);
        assert(Totals::empty().apply_all(one).field(name).agrees(
            Totals::empty().apply_all(other).field(name),
        ));
    }
    assert(Totals::empty().apply_all(one).fields.dom() =~= Totals::empty().apply_all(
        other,
    ).fields.dom());
}

} // verus!
