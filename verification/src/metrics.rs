//! Summary statistics over the event log.
use vstd::prelude::*;
use crate::clock::{parse_rfc3339, rfc3339_instant, rfc3339_text, utc_now, UtcInstant, UtcNow};
use crate::detector::no_peak;
use crate::level::{Dbfs, POS_ZERO_KEY};
use crate::logger::LogEntry;

verus! {

/// Summary of the event log, in plain values.
#[derive(Clone, Copy, Debug, PartialEq, Eq, Structural)]
pub struct Summary {
    pub total_events: usize,
    pub events_in_window: usize,
    /// The loudest peak of all entries (`0.0` when there is none).
    pub peak_dbfs: Dbfs,
    /// An hour of the day (UTC) with the most events.
    pub busiest_hour: Option<u32>,
}

/// The loudest peak of the entries (`f64::max` from negative infinity).
pub open spec fn peak_of_entries(entries: Seq<LogEntry>) -> Dbfs
    decreases entries.len(),
{
    if entries.len() == 0 {
        no_peak()
    } else {
        peak_of_entries(entries.drop_last()).spec_max(entries.last().peak_dbfs)
    }
}

/// The summary's peak is at least as loud as every entry whose peak is a
/// number, and it is one of the entries' peaks unless all of them are NaN.
pub proof fn law_peak_is_the_loudest(entries: Seq<LogEntry>)
    ensures
        !peak_of_entries(entries).spec_is_nan(),
        forall|i: int| 0 <= i < entries.len() && !(#[trigger] entries[i].peak_dbfs).spec_is_nan()
            ==> peak_of_entries(entries).key >= entries[i].peak_dbfs.key,
        peak_of_entries(entries) == no_peak() || exists|i: int| 0 <= i < entries.len()
            && peak_of_entries(entries) == #[trigger] entries[i].peak_dbfs,
    decreases entries.len(),
{
    crate::level::lemma_nan_by_key(no_peak().key);
    if entries.len() > 0 {
        let prev = entries.drop_last();
        law_peak_is_the_loudest(prev);
        crate::level::lemma_nan_by_key(entries.last().peak_dbfs.key);
        assert forall|i: int| 0 <= i < entries.len() && !(#[trigger] entries[i].peak_dbfs).spec_is_nan()
            implies peak_of_entries(entries).key >= entries[i].peak_dbfs.key by {
            if i < entries.len() - 1 {
                assert(prev[i] == entries[i]);
            }
            crate::level::lemma_nan_by_key(peak_of_entries(prev).key);
        }
        if peak_of_entries(entries) != no_peak() {
            if peak_of_entries(entries) == entries.last().peak_dbfs {
                assert(entries[entries.len() - 1] == entries.last());
            } else {
                let i = choose|i: int| 0 <= i < prev.len() && peak_of_entries(prev) == #[trigger] prev[i].peak_dbfs;
                assert(entries[i] == prev[i]);
            }
        }
    }
}

/// How many times `h` occurs in `hours`.
pub open spec fn count_of(hours: Seq<u32>, h: u32) -> nat
    decreases hours.len(),
{
    if hours.len() == 0 {
        0
    } else {
        count_of(hours.drop_last(), h) + (if hours.last() == h {
            1nat
        } else {
            0nat
        })
    }
}

/// `h` is an hour of the day that occurs at least as often as any other, and
/// strictly more often than every earlier hour.
pub open spec fn is_busiest(hours: Seq<u32>, h: u32) -> bool {
    &&& h < 24
    &&& forall|k: u32| k < 24 ==> #[trigger] count_of(hours, k) <= count_of(hours, h)
    &&& forall|k: u32| k < h ==> #[trigger] count_of(hours, k) < count_of(hours, h)
}

/// Every value is an hour of the day.
pub open spec fn all_hours(hours: Seq<u32>) -> bool {
    forall|i: int| 0 <= i < hours.len() ==> #[trigger] hours[i] < 24
}

/// The hour of day (UTC) of a timestamp: that of the instant chrono reads
/// from it, or that of `now` where chrono does not read it.
pub open spec fn hour_or(timestamp: Seq<char>, now: UtcInstant) -> u32 {
    match rfc3339_instant(timestamp) {
        Some((secs, nanos)) => UtcInstant { secs, nanos }.spec_hour() as u32,
        None => now.spec_hour() as u32,
    }
}

/// The hour of day of each entry, with `now` standing in for unreadable timestamps.
pub open spec fn hours_spec(entries: Seq<LogEntry>, now: UtcInstant) -> Seq<u32> {
    Seq::new(entries.len(), |i: int| hour_or(entries[i].timestamp@, now))
}

/// The hour of day of each entry: that of its timestamp, or that of `now`
/// where the timestamp cannot be read.
pub fn hours_at(entries: &[LogEntry], now: UtcInstant) -> (hours: Vec<u32>)
    ensures
        hours@ == hours_spec(entries@, now),
        all_hours(hours@),
{
    let mut hours: Vec<u32> = Vec::new();
    let mut i: usize = 0;
    while i < entries.len()
        invariant
            i <= entries@.len(),
            hours@ == hours_spec(entries@, now).take(i as int),
            all_hours(hours@),
        decreases entries.len() - i,
    {
        let h = match parse_rfc3339(entries[i].timestamp.as_str()) {
            Ok(t) => t.hour(),
            Err(_) => now.hour(),
        };
        hours.push(h);
        assert(hours@ =~= hours_spec(entries@, now).take(i + 1));
        i += 1;
    }
    assert(hours_spec(entries@, now).take(entries@.len() as int) =~= hours_spec(entries@, now));
    hours
}

proof fn lemma_count_step(hours: Seq<u32>, i: int, k: u32)
    requires
        0 <= i < hours.len(),
    ensures
        count_of(hours.take(i + 1), k) == count_of(hours.take(i), k) + (if hours[i] == k {
            1nat
        } else {
            0nat
        }),
{
    assert(hours.take(i + 1).drop_last() =~= hours.take(i));
}

/// An hour of the day that occurs most often in `hours` (the earliest such
/// hour), or `None` when `hours` is empty.
pub fn busiest_hour(hours: &[u32]) -> (res: Option<u32>)
    requires
        all_hours(hours@),
    ensures
        res is None <==> hours@.len() == 0,
        res matches Some(h) ==> is_busiest(hours@, h),
{
    if hours.len() == 0 {
        return None;
    }
    let mut counts: Vec<usize> = Vec::new();
    let mut k: usize = 0;
    while k < 24
        invariant
            k <= 24,
            counts@.len() == k,
            forall|j: int| 0 <= j < k ==> #[trigger] counts@[j] == 0,
        decreases 24 - k,
    {
        counts.push(0);
        k += 1;
    }
    assert(hours@.take(0) =~= Seq::<u32>::empty());
    let mut i: usize = 0;
    while i < hours.len()
        invariant
            i <= hours@.len(),
            all_hours(hours@),
            counts@.len() == 24,
            forall|j: u32| j < 24 ==> #[trigger] counts@[j as int] == count_of(hours@.take(i as int), j),
            forall|j: int| 0 <= j < 24 ==> #[trigger] counts@[j] <= i,
        decreases hours.len() - i,
    {
        let h = hours[i];
        assert(h < 24);
        proof {
            assert forall|j: u32| j < 24 implies count_of(hours@.take(i + 1), j) == count_of(
                hours@.take(i as int),
                j,
            ) + (if hours@[i as int] == j {
                1nat
            } else {
                0nat
            }) by {
                lemma_count_step(hours@, i as int, j);
            }
        }
        let c = counts[h as usize];
        counts.set(h as usize, c + 1);
        i += 1;
    }
    assert(hours@.take(hours@.len() as int) =~= hours@);
    let mut best: usize = 0;
    let mut k: usize = 1;
    while k < 24
        invariant
            1 <= k <= 24,
            best < k,
            counts@.len() == 24,
            forall|j: int| 0 <= j < k ==> #[trigger] counts@[j] <= counts@[best as int],
            forall|j: int| 0 <= j < best ==> #[trigger] counts@[j] < counts@[best as int],
        decreases 24 - k,
    {
        if counts[k] > counts[best] {
            best = k;
        }
        k += 1;
    }
    proof {
        assert forall|j: u32| j < 24 implies #[trigger] count_of(hours@, j) <= count_of(hours@, best as u32) by {
            assert(counts@[j as int] <= counts@[best as int]);
        }
        assert forall|j: u32| j < best as u32 implies #[trigger] count_of(hours@, j) < count_of(hours@, best as u32) by {
            assert(counts@[j as int] < counts@[best as int]);
        }
    }
    Some(best as u32)
}

/// The summary of `entries` with the hours of unreadable timestamps taken at `now`.
pub open spec fn summary_of(entries: Seq<LogEntry>, now: UtcInstant, summary: Summary) -> bool {
    &&& summary.total_events == entries.len()
    &&& summary.events_in_window == entries.len()
    &&& summary.peak_dbfs == (if entries.len() == 0 {
        Dbfs { key: POS_ZERO_KEY }
    } else {
        peak_of_entries(entries)
    })
    &&& (summary.busiest_hour is None <==> entries.len() == 0)
    &&& (summary.busiest_hour matches Some(h) ==> is_busiest(hours_spec(entries, now), h))
}

/// Counts, loudest peak and busiest hour of the entries, with the hour of an
/// entry whose timestamp cannot be read taken from `now`.
pub fn summarize_at(entries: &[LogEntry], now: UtcInstant) -> (summary: Summary)
    ensures
        summary_of(entries@, now, summary),
{
    if entries.len() == 0 {
        return Summary { total_events: 0, events_in_window: 0, peak_dbfs: Dbfs { key: POS_ZERO_KEY }, busiest_hour: None };
    }
    let total_events = entries.len();
    let mut peak = Dbfs::neg_infinity();
    let mut i: usize = 0;
    assert(entries@.take(0) =~= Seq::<LogEntry>::empty());
    while i < entries.len()
        invariant
            i <= entries@.len(),
            peak == peak_of_entries(entries@.take(i as int)),
        decreases entries.len() - i,
    {
        assert(entries@.take(i + 1).drop_last() =~= entries@.take(i as int));
        peak = peak.max(entries[i].peak_dbfs);
        i += 1;
    }
    assert(entries@.take(entries@.len() as int) =~= entries@);
    let hours = hours_at(entries, now);
    let busiest = busiest_hour(hours.as_slice());
    Summary { total_events, events_in_window: total_events, peak_dbfs: peak, busiest_hour: busiest }
}

/// Every entry's timestamp can be read by chrono.
pub open spec fn all_readable(entries: Seq<LogEntry>) -> bool {
    forall|i: int| 0 <= i < entries.len() ==> #[trigger] rfc3339_instant(entries[i].timestamp@) is Some
}

/// When every timestamp can be read, the summary does not depend on the
/// clock: the hours of the entries, and so the summary, are the same for
/// every instant standing in for unreadable timestamps.
pub proof fn law_readable_log_needs_no_clock(entries: Seq<LogEntry>, t1: UtcInstant, t2: UtcInstant, s: Summary)
    requires
        all_readable(entries),
    ensures
        hours_spec(entries, t1) == hours_spec(entries, t2),
        summary_of(entries, t1, s) <==> summary_of(entries, t2, s),
{
    assert forall|i: int| 0 <= i < entries.len() implies #[trigger] hours_spec(entries, t1)[i]
        == hours_spec(entries, t2)[i] by {
        assert(rfc3339_instant(entries[i].timestamp@) is Some);
    }
    assert(hours_spec(entries, t1) =~= hours_spec(entries, t2));
}

/// Counts, loudest peak and busiest hour of the entries. The clock is read
/// only when some timestamp cannot be read, and the current hour stands in
/// for those; `None` only when the clock is needed and cannot be read.
pub fn summarize(entries: &[LogEntry]) -> (summary: Option<Summary>)
    ensures
        summary is None ==> entries@.len() > 0,
        summary is None ==> !all_readable(entries@),
        all_readable(entries@) ==> (summary is Some && forall|t: UtcInstant| #[trigger] summary_of(
            entries@,
            t,
            summary->0,
        )),
        all_readable(entries@) ==> (summary is Some && summary->0.total_events == entries@.len()
            && summary->0.events_in_window == entries@.len()),
        entries@.len() == 0 ==> summary == Some(
            Summary { total_events: 0, events_in_window: 0, peak_dbfs: Dbfs { key: POS_ZERO_KEY }, busiest_hour: None },
        ),
        summary matches Some(s) ==> exists|now: UtcInstant| summary_of(entries@, now, s),
        !all_readable(entries@) && summary is Some ==> exists|reading: UtcNow|
            {
                &&& reading.rfc3339@ == rfc3339_text(reading.instant.secs, reading.instant.nanos)
                &&& summary_of(entries@, reading.instant, summary->0)
            },
{
    if entries.len() == 0 {
        let empty = Summary { total_events: 0, events_in_window: 0, peak_dbfs: Dbfs { key: POS_ZERO_KEY }, busiest_hour: None };
        assert(summary_of(entries@, UtcInstant { secs: 0, nanos: 0 }, empty));
        assert forall|t: UtcInstant| summary_of(entries@, t, empty) by {}
        return Some(empty);
    }
    let mut readable = true;
    let mut i: usize = 0;
    while i < entries.len()
        invariant
            i <= entries@.len(),
            readable == (forall|j: int| 0 <= j < i ==> #[trigger] rfc3339_instant(entries@[j].timestamp@) is Some),
        decreases entries.len() - i,
    {
        match parse_rfc3339(entries[i].timestamp.as_str()) {
            Ok(_) => {},
            Err(_) => {
                readable = false;
            },
        }
        i += 1;
    }
    if !readable {
        let reading = match utc_now() {
            None => return None,
            Some(reading) => reading,
        };
        let s = summarize_at(entries, reading.instant);
        assert(summary_of(entries@, reading.instant, s));
        assert(reading.rfc3339@ == rfc3339_text(reading.instant.secs, reading.instant.nanos));
        return Some(s);
    }
    let now = UtcInstant { secs: 0, nanos: 0 };
    let s = summarize_at(entries, now);
    proof {
        assert(summary_of(entries@, now, s));
        if all_readable(entries@) {
            assert forall|t: UtcInstant| summary_of(entries@, t, s) by {
                law_readable_log_needs_no_clock(entries@, now, t, s);
            }
        }
    }
    Some(s)
}

} // verus!
