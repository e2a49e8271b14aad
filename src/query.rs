//! Filtered, paginated event queries.

use vstd::prelude::*;

use crate::encoding::{contains_text, is_infix, lower_of, lowercase};
use crate::ids::ApplicationId;
use crate::keyed::SameKey;
use crate::state::{CapturedEvent, EventFilters, Pagination};
use crate::store::AnalyticsState;

verus! {

/// Whether `e` passes every filter of `f` that is present, where the search
/// text is found when `needle_lower` occurs in `data_lower` (the lowercase
/// forms of the search text and of the payload).
pub open spec fn event_matches_with(
    e: CapturedEvent,
    f: EventFilters,
    data_lower: Seq<char>,
    needle_lower: Seq<char>,
) -> bool {
    &&& (f.application_ids matches Some(ids) ==> exists|i: int|
        0 <= i < ids@.len() && ids@[i] == e.source_app)
    &&& (f.event_types matches Some(types) ==> exists|i: int|
        0 <= i < types@.len() && types@[i]@ == e.event_type@)
    &&& (f.time_range matches Some(r) ==> r.start <= e.timestamp <= r.end)
    &&& (f.severity matches Some(s) ==> e.severity == s)
    &&& (f.search_text is Some ==> is_infix(needle_lower, data_lower))
}

/// Whether `e` passes every filter of `f` that is present. The search text
/// matches the payload text case-insensitively.
pub open spec fn event_matches(e: CapturedEvent, f: EventFilters) -> bool {
    event_matches_with(
        e,
        f,
        lower_of(e.data@),
        match f.search_text {
            Some(t) => lower_of(t@),
            None => Seq::empty(),
        },
    )
}

/// The events of `events` that pass `f`, in order.
pub open spec fn matching(events: Seq<CapturedEvent>, f: EventFilters) -> Seq<CapturedEvent>
    decreases events.len(),
{
    if events.len() == 0 {
        Seq::empty()
    } else if event_matches(events.last(), f) {
        matching(events.drop_last(), f).push(events.last())
    } else {
        matching(events.drop_last(), f)
    }
}

/// The window of `s` that `p` selects: skip `offset`, then take at most
/// `limit`.
pub open spec fn page<T>(s: Seq<T>, p: Pagination) -> Seq<T> {
    let lo = if p.offset < s.len() { p.offset as int } else { s.len() as int };
    let hi = if p.offset + p.limit < s.len() { p.offset + p.limit } else { s.len() as int };
    s.subrange(lo, hi)
}

fn contains_app(ids: &Vec<ApplicationId>, app: &ApplicationId) -> (r: bool)
    ensures
        r == exists|i: int| 0 <= i < ids@.len() && ids@[i] == *app,
{
    let mut i: usize = 0;
    while i < ids.len()
        invariant
            0 <= i <= ids@.len(),
            forall|j: int| 0 <= j < i ==> ids@[j] != *app,
        decreases ids@.len() - i,
    {
        if ids[i].same_key(app) {
            return true;
        }
        i = i + 1;
    }
    false
}

fn contains_string(items: &Vec<String>, s: &String) -> (r: bool)
    ensures
        r == exists|i: int| 0 <= i < items@.len() && items@[i]@ == s@,
{
    let mut i: usize = 0;
    while i < items.len()
        invariant
            0 <= i <= items@.len(),
            forall|j: int| 0 <= j < i ==> items@[j]@ != s@,
        decreases items@.len() - i,
    {
        if items[i] == *s {
            return true;
        }
        i = i + 1;
    }
    false
}

/// Whether `event` passes every filter of `filters` that is present, given
/// the lowercase forms of its payload and of the search text.
pub fn matches_filters_folded(
    event: &CapturedEvent,
    filters: &EventFilters,
    data_lower: &str,
    needle_lower: &str,
) -> (r: bool)
    ensures
        r == event_matches_with(*event, *filters, data_lower@, needle_lower@),
{
    if let Some(ids) = &filters.application_ids {
        if !contains_app(ids, &event.source_app) {
            return false;
        }
    }
    if let Some(types) = &filters.event_types {
        if !contains_string(types, &event.event_type) {
            return false;
        }
    }
    if let Some(range) = &filters.time_range {
        if !range.contains(event.timestamp) {
            return false;
        }
    }
    if let Some(severity) = &filters.severity {
        if event.severity != *severity {
            return false;
        }
    }
    if filters.search_text.is_some() {
        if !contains_text(data_lower, needle_lower) {
            return false;
        }
    }
    true
}

/// Whether `event` passes every filter of `filters` that is present.
pub fn matches_filters(event: &CapturedEvent, filters: &EventFilters) -> (r: bool)
    ensures
        r == event_matches(*event, *filters),
{
    let data_lower = lowercase(event.data.as_str());
    let needle_lower = match &filters.search_text {
        Some(text) => lowercase(text.as_str()),
        None => String::new(),
    };
    matches_filters_folded(event, filters, data_lower.as_str(), needle_lower.as_str())
}

impl AnalyticsState {
    /// The logged events that pass `filters`, in log order, windowed by
    /// `pagination`.
    pub fn get_events(&self, filters: &EventFilters, pagination: Pagination) -> (r: Vec<
        CapturedEvent,
    >)
        ensures
            r@ == page(matching(self.events@, *filters), pagination),
    {
        let mut found: Vec<CapturedEvent> = Vec::new();
        let n = self.events.len();
        let mut i: usize = 0;
        assert(self.events@.subrange(0, 0) =~= Seq::<CapturedEvent>::empty());
        while i < n
            invariant
                n == self.events@.len(),
                0 <= i <= n,
                found@ == matching(self.events@.subrange(0, i as int), *filters),
            decreases n - i,
        {
            assert(self.events@.subrange(0, i as int + 1).drop_last() =~= self.events@.subrange(
                0,
                i as int,
            ));
            if matches_filters(&self.events[i], filters) {
                found.push(self.events[i].duplicate());
            }
            i = i + 1;
        }
        assert(self.events@.subrange(0, n as int) =~= self.events@);
        let len = found.len();
        let lo: usize = if pagination.offset < len {
            pagination.offset
        } else {
            len
        };
        let hi: usize = if pagination.limit < len - lo {
            lo + pagination.limit
        } else {
            len
        };
        let mut out: Vec<CapturedEvent> = Vec::new();
        let mut j: usize = lo;
        while j < hi
            invariant
                lo <= j <= hi <= found@.len(),
                out@ == found@.subrange(lo as int, j as int),
            decreases hi - j,
        {
            out.push(found[j].duplicate());
            j = j + 1;
            assert(out@ =~= found@.subrange(lo as int, j as int));
        }
        out
    }
}

} // verus!
