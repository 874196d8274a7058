//! Streaming per-field statistics over JSON records.
//!
//! A [`Summarizer`] is fed one record at a time. For every field name it has
//! seen it keeps a [`Summary`]: how often the field occurred, how often it was
//! null or an object, and one running accumulator for each of the other kinds
//! of value (numbers, strings, booleans, arrays). Arrays are measured by their
//! length, and neither they nor objects are looked into.
//!
//! A number is an IEEE-754 double and is held as its 64 bits. The library
//! orders numbers by these bits. It does not add them: every function that
//! takes in a number also takes the addition, as a function from two such
//! bit patterns to a third, and records as the total what that function
//! returns.
//!
//! Each type with statistics has a view in unbounded numbers, on which the
//! effect of every operation is defined, and the modules prove of these views
//! what the statistics mean: that the counts add up, that the extremes are the
//! true ones and the first of their kind, and that nothing but the choice
//! among equal extremes depends on the order of the input.

pub mod array;
pub mod boolean;
pub mod ingest;
pub mod length;
pub mod names;
pub mod number;
pub mod order;
pub mod summarizer;
pub mod summary;
pub mod text;
pub mod value;

pub use array::ArraySummary;
pub use boolean::BoolSummary;
pub use ingest::{Failure, LineError, Policy};
pub use names::NameIndex;
pub use number::NumSummary;
pub use summarizer::Summarizer;
pub use summary::Summary;
pub use text::StringSummary;
pub use value::{Datum, Record, Value};
