//! Feeding a summarizer from lines of input, some of which may give no record.

use crate::summarizer::{total_moves, Summarizer};
use crate::value::Record;
use vstd::prelude::*;

verus! {

/// Why a line of input gave no record.
#[derive(Clone, Copy, Debug, PartialEq, Eq)]
pub enum LineError {
    /// The text of the line could not be read.
    Unreadable,
    /// The text of the line is not JSON.
    Unparseable,
    /// The line holds a JSON value that is not an object.
    NotAnObject,
}

/// What becomes of a run when a line gives no record.
#[derive(Clone, Copy, Debug, PartialEq, Eq)]
pub enum Policy {
    /// The run ends at the first such line, with a failure that names it.
    Strict,
    /// Such a line is passed over, and the run goes on.
    Lenient,
}

/// The line at which a strict run ended, and why.
#[derive(Clone, Copy, Debug, PartialEq, Eq)]
pub struct Failure {
    /// The number of the line.
    pub line: usize,
    /// Why it gave no record.
    pub error: LineError,
}

impl Summarizer {
    /// Takes in what line number `line` gave. A record is taken in as by
    /// `next`, under either policy. A line that gave none leaves the
    /// summarizer as it is; the strict policy then answers with the failure
    /// at which the run is to end, the lenient one goes on.
    pub fn feed<F: Fn(u64, u64) -> u64>(
        &mut self,
        line: usize,
        parsed: Result<Record, LineError>,
        policy: Policy,
        plus: &F,
    ) -> (outcome: Result<(), Failure>)
        requires
            old(self).wf(),
            old(self)@.records < u64::MAX,
            parsed matches Ok(record) ==> record.wf(),
            forall|a: u64, b: u64| call_requires(*plus, (a, b)),
        ensures
            final(self).wf(),
            match parsed {
                Ok(record) => {
                    &&& outcome is Ok
                    &&& final(self)@ == old(self)@.apply(record@)
                    &&& final(self).order() == old(self).order() + record.keys().filter(
                        |name: Seq<char>| !old(self).order().contains(name),
                    )
                    &&& forall|name: Seq<char>|
                        if record@.contains_key(name) {
                            total_moves(
                                plus,
                                old(self).number_total(name),
                                record@[name],
                                #[trigger] final(self).number_total(name),
                            )
                        } else {
                            final(self).number_total(name) == old(self).number_total(name)
                        }
                },
                Err(error) => {
                    &&& *final(self) == *old(self)
                    &&& outcome == match policy {
                        Policy::Strict => Err::<(), Failure>(Failure { line, error }),
                        Policy::Lenient => Ok::<(), Failure>(()),
                    }
                },
            },
    {
        match parsed {
            Ok(record) => {
                self.next(&record, plus);
                Ok(())
            },
            Err(error) => match policy {
                Policy::Strict => Err(Failure { line, error }),
                Policy::Lenient => Ok(()),
            },
        }
    }
}

} // verus!
