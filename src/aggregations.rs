//! Time bucketing of events. The floating-point statistics of the engine
//! live with the application layer.

use vstd::prelude::*;

use crate::keyed::{keys_ascending, list_of, lists, KeyedMap};
use crate::state::{CapturedEvent, Timestamp};

verus! {

/// A time bucket: its start, floored to a multiple of its duration.
#[derive(Clone, Copy, Debug, PartialEq, Eq, Structural, PartialOrd, Ord, Hash)]
pub struct TimeBucket {
    /// Start of the bucket.
    pub start: Timestamp,
    /// Duration of the bucket in milliseconds.
    pub duration_ms: u64,
}

/// `timestamp` floored to a multiple of `granularity_ms`.
pub open spec fn floor_to(timestamp: Timestamp, granularity_ms: u64) -> Timestamp {
    ((timestamp / granularity_ms) * granularity_ms) as Timestamp
}

/// Events grouped by the start of their bucket, each group in input order.
pub open spec fn bucket_map(events: Seq<CapturedEvent>, granularity_ms: u64) -> Map<
    Timestamp,
    Seq<CapturedEvent>,
>
    decreases events.len(),
{
    if events.len() == 0 {
        Map::empty()
    } else {
        let m = bucket_map(events.drop_last(), granularity_ms);
        let k = floor_to(events.last().timestamp, granularity_ms);
        m.insert(k, list_of(m, k).push(events.last()))
    }
}

impl TimeBucket {
    /// The bucket of `granularity_ms` that holds `timestamp`.
    pub fn from_timestamp(timestamp: Timestamp, granularity_ms: u64) -> (r: TimeBucket)
        requires
            granularity_ms > 0,
        ensures
            r.start == floor_to(timestamp, granularity_ms),
            r.start <= timestamp < r.start + granularity_ms,
            r.duration_ms == granularity_ms,
    {
        let q = timestamp / granularity_ms;
        assert(q * granularity_ms <= timestamp < q * granularity_ms + granularity_ms) by (
        nonlinear_arith)
            requires
                q == timestamp / granularity_ms,
                granularity_ms > 0,
        ;
        TimeBucket { start: q * granularity_ms, duration_ms: granularity_ms }
    }

    /// End of the bucket (exclusive).
    pub fn end(&self) -> (r: Timestamp)
        requires
            self.start + self.duration_ms <= u64::MAX,
        ensures
            r == self.start + self.duration_ms,
    {
        self.start + self.duration_ms
    }
}

/// The analytics engine.
pub struct AggregationEngine;

impl AggregationEngine {
    /// Groups `events` into buckets of `granularity_ms`, buckets in ascending
    /// order, each holding its events in input order.
    pub fn bucket_events(events: &[CapturedEvent], granularity_ms: u64) -> (r: Vec<
        (TimeBucket, Vec<CapturedEvent>),
    >)
        requires
            granularity_ms > 0,
        ensures
            forall|i: int, j: int| 0 <= i < j < r@.len() ==> r@[i].0.start < r@[j].0.start,
            forall|i: int|
                0 <= i < r@.len() ==> (#[trigger] r@[i]).0.duration_ms == granularity_ms
                    && bucket_map(events@, granularity_ms).contains_key(r@[i].0.start)
                    && r@[i].1@ == bucket_map(events@, granularity_ms)[r@[i].0.start],
            forall|k: Timestamp|
                #[trigger] bucket_map(events@, granularity_ms).contains_key(k) ==> exists|i: int|
                    0 <= i < r@.len() && r@[i].0.start == k,
    {
        let mut buckets: KeyedMap<Timestamp, Vec<CapturedEvent>> = KeyedMap::new();
        let n = events.len();
        let mut i: usize = 0;
        assert(lists(buckets@) =~= bucket_map(events@.subrange(0, 0), granularity_ms));
        while i < n
            invariant
                n == events@.len(),
                granularity_ms > 0,
                0 <= i <= n,
                buckets.wf(),
                keys_ascending(buckets.entries@),
                lists(buckets@) == bucket_map(events@.subrange(0, i as int), granularity_ms),
            decreases n - i,
        {
            let bucket = TimeBucket::from_timestamp(events[i].timestamp, granularity_ms);
            buckets.append_sorted(bucket.start, events[i].duplicate());
            assert(events@.subrange(0, i as int + 1).drop_last() =~= events@.subrange(0, i as int));
            i = i + 1;
        }
        assert(events@.subrange(0, n as int) =~= events@);
        let ghost m = bucket_map(events@, granularity_ms);
        let ghost entries = buckets.entries@;
        let mut out: Vec<(TimeBucket, Vec<CapturedEvent>)> = Vec::new();
        let count = buckets.entries.len();
        let mut j: usize = 0;
        while j < count
            invariant
                count == entries.len(),
                buckets.entries@.len() == count,
                crate::keyed::keys_distinct(entries),
                keys_ascending(entries),
                lists(crate::keyed::entry_map(entries)) == m,
                forall|t: int| j <= t < count ==> #[trigger] buckets.entries@[t] == entries[t],
                0 <= j <= count,
                out@.len() == j,
                forall|t: int|
                    0 <= t < j ==> (#[trigger] out@[t]).0 == (TimeBucket {
                        start: entries[t].0,
                        duration_ms: granularity_ms,
                    }) && out@[t].1@ == entries[t].1@,
            decreases count - j,
        {
            let mut list: Vec<CapturedEvent> = Vec::new();
            std::mem::swap(&mut list, &mut buckets.entries[j].1);
            let start = buckets.entries[j].0;
            out.push((TimeBucket { start, duration_ms: granularity_ms }, list));
            j = j + 1;
        }
        proof {
            assert forall|t: int| 0 <= t < out@.len() implies (#[trigger] out@[t]).0.duration_ms
                == granularity_ms && m.contains_key(out@[t].0.start) && out@[t].1@ == m[out@[t].0.start] by {
                crate::keyed::lemma_entry_at(entries, t);
            }
            assert forall|k: Timestamp| #[trigger] m.contains_key(k) implies exists|t: int|
                0 <= t < out@.len() && out@[t].0.start == k by {
                let t = choose|t: int| 0 <= t < entries.len() && entries[t].0 == k;
                assert(out@[t].0.start == k);
            }
        }
        out
    }
}

} // verus!
