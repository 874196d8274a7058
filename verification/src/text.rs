//! The accumulator of strings.

use crate::length::{first_longest, first_shortest, LenStats};
use vstd::prelude::*;

verus! {

/// The length of `word` as `str::len` gives it: the number of bytes of its
/// UTF-8 encoding, in a machine word.
pub open spec fn byte_len(word: Seq<char>) -> nat {
    (vstd::utf8::encode_utf8(word).len() as usize) as nat
}

/// The lengths of `words`, each in its place.
pub open spec fn lengths_of(words: Seq<Seq<char>>) -> Seq<nat> {
    words.map_values(|word: Seq<char>| byte_len(word))
}

/// Running statistics of the strings seen in one field.
pub struct StringSummary {
    /// How many strings were seen.
    pub count: u64,
    /// The least of their lengths; 0 as long as there is none.
    pub min_len: u64,
    /// The first string seen of that length; empty as long as there is none.
    pub min_word: String,
    /// The greatest of their lengths; 0 as long as there is none.
    pub max_len: u64,
    /// The first string seen of that length; empty as long as there is none.
    pub max_word: String,
    /// The sum of their lengths.
    pub sum_len: u128,
}

/// The statistics of a `StringSummary`, in unbounded numbers.
#[verifier::ext_equal]
pub struct TextStats {
    pub count: nat,
    pub min_len: nat,
    pub min_word: Seq<char>,
    pub max_len: nat,
    pub max_word: Seq<char>,
    pub sum_len: nat,
}

impl TextStats {
    /// Before the first string.
    pub open spec fn empty() -> TextStats {
        TextStats {
            count: 0,
            min_len: 0,
            min_word: Seq::empty(),
            max_len: 0,
            max_word: Seq::empty(),
            sum_len: 0,
        }
    }

    /// After one more string. The first string is both the shortest and the
    /// longest; a later one takes a place only from a string that it is
    /// strictly shorter or strictly longer than, so that of several strings of
    /// an extreme length the first stays.
    pub open spec fn observe(self, word: Seq<char>) -> TextStats {
        let length = byte_len(word);
        let shorter = self.count == 0 || length < self.min_len;
        let longer = self.count == 0 || length > self.max_len;
        TextStats {
            count: self.count + 1,
            min_len: if shorter {
                length
            } else {
                self.min_len
            },
            min_word: if shorter {
                word
            } else {
                self.min_word
            },
            max_len: if longer {
                length
            } else {
                self.max_len
            },
            max_word: if longer {
                word
            } else {
                self.max_word
            },
            sum_len: self.sum_len + length,
        }
    }

    /// After all of `words`, one after the other.
    pub open spec fn observe_all(self, words: Seq<Seq<char>>) -> TextStats {
        words.fold_left(self, |stats: TextStats, word: Seq<char>| stats.observe(word))
    }

    /// The part that speaks of lengths only.
    pub open spec fn lengths(self) -> LenStats {
        LenStats { count: self.count, min: self.min_len, max: self.max_len, sum: self.sum_len }
    }
}

impl View for StringSummary {
    type V = TextStats;

    open spec fn view(&self) -> TextStats {
        TextStats {
            count: self.count as nat,
            min_len: self.min_len as nat,
            min_word: self.min_word@,
            max_len: self.max_len as nat,
            max_word: self.max_word@,
            sum_len: self.sum_len as nat,
        }
    }
}

impl StringSummary {
    /// Each recorded word has the recorded length, the least length is not
    /// above the greatest, and the sum is that of `count` machine words.
    pub open spec fn wf(&self) -> bool {
        &&& byte_len(self.min_word@) == self.min_len
        &&& byte_len(self.max_word@) == self.max_len
        &&& self.min_len <= self.max_len
        &&& self.sum_len <= self.count * u64::MAX
    }

    /// The accumulator that has seen no string.
    pub fn new() -> (summary: StringSummary)
        ensures
            summary.wf(),
            summary@ == TextStats::empty(),
    {
        let summary = StringSummary {
            count: 0,
            min_len: 0,
            min_word: String::new(),
            max_len: 0,
            max_word: String::new(),
            sum_len: 0,
        };
        assert(vstd::utf8::encode_utf8(Seq::<char>::empty()).len() == 0);
        summary
    }

    /// Takes in one string.
    pub fn next(&mut self, word: &str)
        requires
            old(self).wf(),
            old(self).count < u64::MAX,
        ensures
            final(self).wf(),
            final(self)@ == old(self)@.observe(word@),
    {
        self.count += 1;
        let length = word.len() as u64;
        self.sum_len += length as u128;
        if self.count == 1 {
            self.min_len = length;
            self.min_word = word.to_owned();
            self.max_len = length;
            self.max_word = word.to_owned();
        } else {
            if length < self.min_len {
                self.min_len = length;
                self.min_word = word.to_owned();
            }
            if length > self.max_len {
                self.max_len = length;
                self.max_word = word.to_owned();
            }
        }
    }
}

/// The lengths that an accumulator of strings holds are those that an
/// accumulator of lengths holds of the lengths of the strings: their number,
/// their sum, their true minimum and their true maximum.
pub proof fn lemma_text_lengths(words: Seq<Seq<char>>)
    ensures
        TextStats::empty().observe_all(words).lengths() == LenStats::empty().observe_all(
            lengths_of(words),
        ),
    decreases words.len(),
{
    if words.len() > 0 {
        lemma_text_lengths(words.drop_last());
        assert(lengths_of(words).drop_last() =~= lengths_of(words.drop_last()));
    }
}

/// Fed `words`, an accumulator records as `min_word` the first of the shortest
/// of them and as `max_word` the first of the longest, each with its length.
/// The positions of the two are returned.
pub proof fn lemma_text_words(words: Seq<Seq<char>>) -> (at: (int, int))
    requires
        words.len() > 0,
    ensures
        first_shortest(lengths_of(words), at.0),
        first_longest(lengths_of(words), at.1),
        TextStats::empty().observe_all(words).min_word == words[at.0],
        TextStats::empty().observe_all(words).min_len == byte_len(words[at.0]),
        TextStats::empty().observe_all(words).max_word == words[at.1],
        TextStats::empty().observe_all(words).max_len == byte_len(words[at.1]),
    decreases words.len(),
{
    let before = words.drop_last();
    let last = words.last();
    lemma_text_lengths(before);
    crate::length::lemma_len_totals(lengths_of(before));
    if before.len() == 0 {
        (0, 0)
    } else {
        let found = lemma_text_words(before);
        let stats = TextStats::empty().observe_all(before);
        let lengths = lengths_of(words);
        assert(forall|i: int| 0 <= i < before.len() ==> before[i] == words[i]);
        assert(forall|i: int|
            #![trigger lengths[i]]
            #![trigger lengths_of(before)[i]]
            0 <= i < before.len() ==> lengths_of(before)[i] == lengths[i]);
        assert(lengths[words.len() - 1] == byte_len(last));
        let low = if byte_len(last) < stats.min_len { words.len() - 1 } else { found.0 };
        let high = if byte_len(last) > stats.max_len { words.len() - 1 } else { found.1 };
        (low, high)
    }
}

/// The lengths that an accumulator holds do not depend on the order of the
/// strings. The recorded words may: of two strings of an extreme length, the
/// one that comes first is kept.
pub proof fn lemma_text_any_order(one: Seq<Seq<char>>, other: Seq<Seq<char>>)
    requires
        one.to_multiset() == other.to_multiset(),
    ensures
        TextStats::empty().observe_all(one).lengths() == TextStats::empty().observe_all(
            other,
        ).lengths(),
{
    let step = |stats: LenStats, word: Seq<char>| stats.observe(byte_len(word));
    lemma_text_lengths_fold(one);
    lemma_text_lengths_fold(other);
    assert(vstd::seq_lib::commutative_foldl(step));
    vstd::seq_lib::lemma_fold_left_permutation(one, other, step, LenStats::empty());
}

proof fn lemma_text_lengths_fold(words: Seq<Seq<char>>)
    ensures
        TextStats::empty().observe_all(words).lengths() == words.fold_left(
            LenStats::empty(),
            |stats: LenStats, word: Seq<char>| stats.observe(byte_len(word)),
        ),
    decreases words.len(),
{
    if words.len() > 0 {
        lemma_text_lengths_fold(words.drop_last());
    }
}

} // verus!
