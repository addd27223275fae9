//! The time index of a series: its samples by timestamp, the last sample of
//! a timestamp standing for all of them.

use vstd::prelude::*;

use crate::model::RawSample;
use crate::sorted::{
    ascending, find_last, lemma_find_in_ascending, lemma_found_is_element,
    lemma_upsert_all_ascending, lemma_upsert_all_finds, lemma_upsert_ascending, lemma_upsert_at,
    upsert, upsert_all,
};

verus! {

/// The key of a sample in a time index: its timestamp.
pub open spec fn sample_key<T>() -> spec_fn(RawSample<T>) -> int {
    |s: RawSample<T>| s.timestamp as int
}

/// The entries of the time index of a series: one sample for each distinct
/// timestamp, in ascending order, a later sample of the series replacing an
/// earlier one of the same timestamp.
pub open spec fn time_index<T>(samples: Seq<RawSample<T>>) -> Seq<RawSample<T>> {
    upsert_all(Seq::<RawSample<T>>::empty(), samples, sample_key::<T>())
}

/// The value that a series holds for a timestamp: that of the last sample
/// with this timestamp, if there is one.
pub open spec fn value_at<T>(samples: Seq<RawSample<T>>, timestamp: i64) -> Option<T> {
    match find_last(samples, timestamp as int, sample_key::<T>()) {
        Some(s) => Some(s.value),
        None => None,
    }
}

/// A series indexed by timestamp.
#[derive(Debug)]
pub struct TimeIndex<T> {
    entries: Vec<RawSample<T>>,
}

impl<T> TimeIndex<T> {
    /// The entries, by ascending timestamp.
    pub closed spec fn view(&self) -> Seq<RawSample<T>> {
        self.entries@
    }

    #[verifier::type_invariant]
    spec fn well_formed(&self) -> bool {
        ascending(self.entries@, sample_key::<T>())
    }
}

impl<T: Copy> TimeIndex<T> {
    pub fn new() -> (r: Self)
        ensures
            r@ == Seq::<RawSample<T>>::empty(),
    {
        TimeIndex { entries: Vec::new() }
    }

    /// The number of distinct timestamps.
    pub fn len(&self) -> (n: usize)
        ensures
            n == self@.len(),
            ascending(self@, sample_key::<T>()),
    {
        proof {
            use_type_invariant(self);
        }
        self.entries.len()
    }

    /// The `i`-th entry in ascending order of timestamps.
    pub fn entry(&self, i: usize) -> (r: RawSample<T>)
        requires
            i < self@.len(),
        ensures
            r == self@[i as int],
    {
        self.entries[i]
    }

    /// Puts a sample into the index; it replaces the entry of the same
    /// timestamp, if there is one.
    pub fn insert(&mut self, sample: RawSample<T>)
        ensures
            final(self)@ == upsert(old(self)@, sample, sample_key::<T>()),
    {
        proof {
            use_type_invariant(&*self);
        }
        let mut entries: Vec<RawSample<T>> = Vec::new();
        std::mem::swap(&mut entries, &mut self.entries);
        let ghost before = entries@;
        let mut pos: usize = entries.len();
        while pos > 0 && entries[pos - 1].timestamp > sample.timestamp
            invariant
                pos <= entries.len(),
                entries@ == before,
                forall|j: int|
                    pos <= j < before.len() ==> sample_key::<T>()(sample) < sample_key::<T>()(
                        #[trigger] before[j],
                    ),
            decreases pos,
        {
            pos -= 1;
        }
        proof {
            lemma_upsert_at(before, sample, sample_key::<T>(), pos as int);
            lemma_upsert_ascending(before, sample, sample_key::<T>());
        }
        if pos > 0 && entries[pos - 1].timestamp == sample.timestamp {
            entries.set(pos - 1, sample);
        } else {
            entries.insert(pos, sample);
        }
        self.entries = entries;
    }

    /// The value for a timestamp, if the index has one.
    pub fn get(&self, timestamp: i64) -> (r: Option<T>)
        ensures
            r == value_at(self@, timestamp),
    {
        proof {
            use_type_invariant(self);
        }
        let ghost key = sample_key::<T>();
        let mut lo: usize = 0;
        let mut hi: usize = self.entries.len();
        while lo < hi
            invariant
                lo <= hi <= self.entries.len(),
                ascending(self.entries@, key),
                key == sample_key::<T>(),
                forall|j: int| 0 <= j < lo ==> key(#[trigger] self.entries@[j]) < timestamp,
                forall|j: int| hi <= j < self.entries.len() ==> key(#[trigger] self.entries@[j]) > timestamp,
            decreases hi - lo,
        {
            let mid: usize = lo + (hi - lo) / 2;
            let at: i64 = self.entries[mid].timestamp;
            if at == timestamp {
                proof {
                    lemma_find_in_ascending(self.entries@, key, mid as int);
                }
                return Some(self.entries[mid].value);
            } else if at < timestamp {
                lo = mid + 1;
            } else {
                hi = mid;
            }
        }
        proof {
            lemma_found_is_element(self.entries@, key, timestamp as int);
        }
        None
    }
}

/// Builds the time index of a series.
pub fn values_into_map<T: Copy>(values: &[RawSample<T>]) -> (index: TimeIndex<T>)
    ensures
        index@ == time_index(values@),
{
    let mut index = TimeIndex::new();
    let mut i: usize = 0;
    while i < values.len()
        invariant
            i <= values.len(),
            index@ == time_index(values@.subrange(0, i as int)),
        decreases values.len() - i,
    {
        proof {
            let next = values@.subrange(0, i + 1);
            assert(next.drop_last() == values@.subrange(0, i as int));
        }
        index.insert(values[i]);
        i += 1;
    }
    assert(values@.subrange(0, i as int) == values@);
    index
}

/// Last write wins: the time index of a series holds, for every timestamp,
/// the value of the last sample of the series that has it, and its entries
/// ascend.
pub proof fn lemma_time_index<T>(samples: Seq<RawSample<T>>, timestamp: i64)
    ensures
        value_at(time_index(samples), timestamp) == value_at(samples, timestamp),
        ascending(time_index(samples), sample_key::<T>()),
{
    lemma_upsert_all_finds(
        Seq::<RawSample<T>>::empty(),
        samples,
        sample_key::<T>(),
        timestamp as int,
    );
    lemma_upsert_all_ascending(Seq::<RawSample<T>>::empty(), samples, sample_key::<T>());
}

} // verus!
