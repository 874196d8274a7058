//! JSON values and records.

use crate::names::NameIndex;
use vstd::prelude::*;

verus! {

/// A JSON value.
pub enum Value {
    Null,
    Boolean(bool),
    /// A number, as the bits of an IEEE-754 double.
    Number(u64),
    String(String),
    Array(Vec<Value>),
    Object(Record),
}

/// What the statistics read of a value: its kind, and of a boolean, a number
/// or a string the value itself, of an array the number of its elements, of
/// null and of an object nothing more.
pub enum Datum {
    Null,
    Boolean(bool),
    Number(u64),
    String(Seq<char>),
    Array(nat),
    Object,
}

impl View for Value {
    type V = Datum;

    open spec fn view(&self) -> Datum {
        match self {
            Value::Null => Datum::Null,
            Value::Boolean(value) => Datum::Boolean(*value),
            Value::Number(number) => Datum::Number(*number),
            Value::String(word) => Datum::String(word@),
            Value::Array(elements) => Datum::Array(elements@.len()),
            Value::Object(_) => Datum::Object,
        }
    }
}

/// A JSON object: field names, each with one value.
pub struct Record {
    names: NameIndex,
    values: Vec<Value>,
}

impl View for Record {
    type V = Map<Seq<char>, Datum>;

    /// The fields as a map from each name to what is read of its value.
    closed spec fn view(&self) -> Map<Seq<char>, Datum> {
        Map::new(
            |name: Seq<char>| self.names@.contains(name),
            |name: Seq<char>| self.values@[self.names@.index_of(name)]@,
        )
    }
}

impl Record {
    /// Every name has its value.
    pub closed spec fn wf(&self) -> bool {
        &&& self.names.wf()
        &&& self.names@.len() == self.values@.len()
    }

    /// The names of the fields, in the order in which they were first inserted.
    pub closed spec fn keys(&self) -> Seq<Seq<char>> {
        self.names@
    }

    /// The values of the fields, each at the position of its name in `keys`.
    pub closed spec fn data(&self) -> Seq<Datum> {
        self.values@.map_values(|value: Value| value@)
    }

    /// The names are distinct, they are the domain of the map, and the map
    /// takes each to the value at its position.
    pub proof fn lemma_fields(&self)
        requires
            self.wf(),
        ensures
            self.keys().no_duplicates(),
            self.keys().len() == self.data().len(),
            self@.dom() == self.keys().to_set(),
            forall|i: int|
                0 <= i < self.keys().len() ==> self@[#[trigger] self.keys()[i]] == self.data()[i],
    {
        self.names.lemma_distinct();
    }

    /// The record without fields.
    pub fn new() -> (record: Record)
        ensures
            record.wf(),
            record@ == Map::<Seq<char>, Datum>::empty(),
            record.keys() == Seq::<Seq<char>>::empty(),
    {
        Record { names: NameIndex::new(), values: Vec::new() }
    }

    /// The number of fields.
    pub fn len(&self) -> (n: usize)
        ensures
            n == self.keys().len(),
    {
        self.names.len()
    }

    /// Sets the field `name` to `value`. A field of that name that is already
    /// there keeps its place and loses its former value.
    pub fn insert(&mut self, name: String, value: Value)
        requires
            old(self).wf(),
        ensures
            final(self).wf(),
            final(self)@ == old(self)@.insert(name@, value@),
            final(self).keys() == if old(self).keys().contains(name@) {
                old(self).keys()
            } else {
                old(self).keys().push(name@)
            },
    {
        proof {
            self.names.lemma_distinct();
        }
        match self.names.find(name.as_str()) {
            Some(i) => {
                self.values[i] = value;
            },
            None => {
                let ghost before = self.names@;
                self.names.push(name);
                self.values.push(value);
                proof {
                    assert forall|other: Seq<char>|
                        self.names@.contains(other) <==> (other == name@ || before.contains(
                            other,
                        )) by {
                        if before.contains(other) {
                            let at = before.index_of(other);
                            assert(self.names@[at] == other);
                        }
                        if other == name@ {
                            assert(self.names@[before.len() as int] == name@);
                        }
                    }
                }
            },
        }
    }

    /// The value of the field `name`, if there is such a field.
    pub fn get(&self, name: &str) -> (value: Option<&Value>)
        requires
            self.wf(),
        ensures
            match value {
                Some(value) => self@.contains_key(name@) && value@ == self@[name@],
                None => !self@.contains_key(name@),
            },
    {
        proof {
            self.names.lemma_distinct();
        }
        match self.names.find(name) {
            Some(i) => Some(&self.values[i]),
            None => None,
        }
    }

    /// The name of the field at position `i`.
    pub fn key(&self, i: usize) -> (name: &String)
        requires
            i < self.keys().len(),
        ensures
            name@ == self.keys()[i as int],
    {
        self.names.name(i)
    }

    /// The value of the field at position `i`.
    pub fn value(&self, i: usize) -> (value: &Value)
        requires
            self.wf(),
            i < self.keys().len(),
        ensures
            value@ == self.data()[i as int],
    {
        &self.values[i]
    }
}

} // verus!
