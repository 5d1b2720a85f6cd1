//! The event log: one entry per detected yell, framed as one line each.
use vstd::prelude::*;
use crate::clock::{parse_rfc3339, rfc3339_instant, spec_earlier, UtcInstant};
use crate::detector::YellEvent;
use crate::level::Dbfs;
use crate::text::{chars_of, push_char, string_of, trim, trimmed_range};

verus! {

/// One line of the event log.
#[derive(Clone, Debug)]
pub struct LogEntry {
    /// RFC 3339 text of the event's time.
    pub timestamp: String,
    pub peak_dbfs: Dbfs,
    pub duration_ms: u64,
}

impl LogEntry {
    /// The log entry of an event that has a timestamp.
    pub fn from_event(event: &YellEvent) -> (entry: LogEntry)
        requires
            event.timestamp is Some,
        ensures
            entry.timestamp@ == event.timestamp->0@,
            entry.peak_dbfs == event.peak_dbfs,
            entry.duration_ms == event.duration_ms,
    {
        let timestamp = match &event.timestamp {
            Some(t) => t.clone(),
            None => String::new(),
        };
        LogEntry {
            timestamp,
            peak_dbfs: event.peak_dbfs,
            duration_ms: event.duration_ms,
        }
    }
}

/// The text split at each `'\n'` (a text without one is a single segment).
pub open spec fn split_newlines(s: Seq<char>) -> Seq<Seq<char>>
    decreases s.len(),
{
    if s.len() == 0 {
        seq![Seq::<char>::empty()]
    } else {
        let prev = split_newlines(s.drop_last());
        if s.last() == '\n' {
            prev.push(Seq::<char>::empty())
        } else {
            prev.update(prev.len() - 1, prev.last().push(s.last()))
        }
    }
}

/// The trimmed segments that are not empty, in order.
pub open spec fn kept_lines(segments: Seq<Seq<char>>) -> Seq<Seq<char>>
    decreases segments.len(),
{
    if segments.len() == 0 {
        Seq::<Seq<char>>::empty()
    } else {
        let prev = kept_lines(segments.drop_last());
        let t = trim(segments.last());
        if t.len() > 0 {
            prev.push(t)
        } else {
            prev
        }
    }
}

/// The records of a log file: `str::lines`, each trimmed, empty ones left out.
pub open spec fn log_lines_spec(contents: Seq<char>) -> Seq<Seq<char>> {
    kept_lines(split_newlines(contents))
}

proof fn lemma_split_nonempty(s: Seq<char>)
    ensures
        split_newlines(s).len() >= 1,
    decreases s.len(),
{
    if s.len() > 0 {
        lemma_split_nonempty(s.drop_last());
    }
}

/// The records of a log file's contents: its lines, trimmed, without the
/// empty ones.
pub fn log_lines(contents: &str) -> (res: Vec<String>)
    ensures
        res@.map_values(|l: String| l@) == log_lines_spec(contents@),
{
    let chars = chars_of(contents);
    let n = chars.len();
    let mut res: Vec<String> = Vec::new();
    let mut start: usize = 0;
    let mut i: usize = 0;
    let ghost mut done: Seq<Seq<char>> = Seq::empty();
    assert(chars@.take(0) =~= Seq::<char>::empty());
    assert(chars@.subrange(0, 0) =~= Seq::<char>::empty());
    assert(split_newlines(Seq::<char>::empty()) =~= done.push(Seq::<char>::empty()));
    while i < n
        invariant
            n == chars.len(),
            start <= i <= n,
            split_newlines(chars@.take(i as int)) == done.push(chars@.subrange(start as int, i as int)),
            res@.map_values(|l: String| l@) == kept_lines(done),
        decreases n - i,
    {
        let ghost cur = chars@.subrange(start as int, i as int);
        assert(chars@.take(i + 1).drop_last() =~= chars@.take(i as int));
        assert(chars@.take(i + 1).last() == chars@[i as int]);
        if chars[i] == '\n' {
            let (a, b) = trimmed_range(&chars, start, i);
            if a < b {
                let line = string_of(&chars, a, b);
                res.push(line);
            }
            proof {
                assert(kept_lines(done.push(cur)).len() >= 0);
                assert(done.push(cur).drop_last() =~= done);
                assert(res@.map_values(|l: String| l@) =~= kept_lines(done.push(cur)));
                done = done.push(cur);
                assert(chars@.subrange(i + 1, i + 1) =~= Seq::<char>::empty());
            }
            start = i + 1;
        } else {
            proof {
                assert(chars@.subrange(start as int, i + 1) =~= cur.push(chars@[i as int]));
                assert(done.push(cur).update(done.len() as int, cur.push(chars@[i as int]))
                    =~= done.push(cur.push(chars@[i as int])));
            }
        }
        i += 1;
    }
    let (a, b) = trimmed_range(&chars, start, n);
    if a < b {
        let line = string_of(&chars, a, b);
        res.push(line);
    }
    proof {
        let cur = chars@.subrange(start as int, n as int);
        assert(chars@.take(n as int) =~= contents@);
        assert(done.push(cur).drop_last() =~= done);
        assert(res@.map_values(|l: String| l@) =~= kept_lines(done.push(cur)));
    }
    res
}

/// The bytes appended to the log for one record: the record and a newline
/// (`writeln!`).
pub fn frame_record(record: &str) -> (line: String)
    ensures
        line@ == record@.push('\n'),
{
    let chars = chars_of(record);
    let mut line = string_of(&chars, 0, chars.len());
    assert(chars@.subrange(0, chars@.len() as int) =~= record@);
    push_char(&mut line, '\n');
    line
}

proof fn lemma_split_append(s: Seq<char>, t: Seq<char>)
    requires
        forall|i: int| 0 <= i < t.len() ==> t[i] != '\n',
    ensures
        split_newlines(s + t) == split_newlines(s).update(
            split_newlines(s).len() - 1,
            split_newlines(s).last() + t,
        ),
    decreases t.len(),
{
    lemma_split_nonempty(s);
    if t.len() == 0 {
        assert(s + t =~= s);
        assert(split_newlines(s).last() + t =~= split_newlines(s).last());
        assert(split_newlines(s).update(split_newlines(s).len() - 1, split_newlines(s).last())
            =~= split_newlines(s));
    } else {
        let t0 = t.drop_last();
        lemma_split_append(s, t0);
        assert((s + t).drop_last() =~= s + t0);
        assert((s + t).last() == t.last());
        let prev = split_newlines(s + t0);
        let base = split_newlines(s);
        assert((base.last() + t0).push(t.last()) =~= base.last() + t);
        assert(prev.update(prev.len() - 1, prev.last().push(t.last())) =~= base.update(
            base.len() - 1,
            base.last() + t,
        ));
    }
}

/// What is read back of a write: appending a framed record to a log whose
/// contents are empty or end in a newline adds exactly that record to the
/// log's records, after all those already there, provided the record is a
/// single line with no surrounding white space (as a JSON object is).
pub proof fn law_appended_record_reads_back(contents: Seq<char>, record: Seq<char>)
    requires
        contents.len() == 0 || contents.last() == '\n',
        record.len() > 0,
        forall|i: int| 0 <= i < record.len() ==> record[i] != '\n',
        trim(record) == record,
    ensures
        log_lines_spec(contents + record.push('\n')) == log_lines_spec(contents).push(record),
{
    let segs = split_newlines(contents);
    lemma_split_nonempty(contents);
    if contents.len() == 0 {
        assert(segs =~= seq![Seq::<char>::empty()]);
    } else {
        assert(segs == split_newlines(contents.drop_last()).push(Seq::<char>::empty()));
    }
    assert(segs.last() =~= Seq::<char>::empty());
    lemma_split_append(contents, record);
    assert(segs.last() + record =~= record);
    let with_record = segs.update(segs.len() - 1, record);
    assert(contents + record.push('\n') =~= (contents + record).push('\n'));
    assert((contents + record).push('\n').drop_last() =~= contents + record);
    assert(split_newlines(contents + record.push('\n')) == with_record.push(Seq::<char>::empty()));
    assert(trim(Seq::<char>::empty()) =~= Seq::<char>::empty());
    assert(with_record.push(Seq::<char>::empty()).drop_last() =~= with_record);
    assert(with_record.drop_last() =~= segs.drop_last());
    assert(kept_lines(with_record) == kept_lines(segs.drop_last()).push(record));
    assert(kept_lines(segs) == kept_lines(segs.drop_last()));
}

/// A record as `frame_record` can frame it for reading back: one non-empty
/// line with no surrounding white space.
pub open spec fn is_record(record: Seq<char>) -> bool {
    &&& record.len() > 0
    &&& forall|i: int| 0 <= i < record.len() ==> record[i] != '\n'
    &&& trim(record) == record
}

/// The bytes that appending the records one after another adds to the log.
pub open spec fn framed(records: Seq<Seq<char>>) -> Seq<char>
    decreases records.len(),
{
    if records.len() == 0 {
        Seq::empty()
    } else {
        framed(records.drop_last()) + records.last().push('\n')
    }
}

/// What is read back of many writes: appending records one after another to
/// a log whose contents are empty or end in a newline adds exactly those
/// records, in order, after those already there.
pub proof fn law_appended_records_read_back(contents: Seq<char>, records: Seq<Seq<char>>)
    requires
        contents.len() == 0 || contents.last() == '\n',
        forall|i: int| 0 <= i < records.len() ==> #[trigger] is_record(records[i]),
    ensures
        log_lines_spec(contents + framed(records)) == log_lines_spec(contents) + records,
    decreases records.len(),
{
    if records.len() == 0 {
        assert(contents + framed(records) =~= contents);
        assert(log_lines_spec(contents) + records =~= log_lines_spec(contents));
    } else {
        let prev = records.drop_last();
        assert forall|i: int| 0 <= i < prev.len() implies #[trigger] is_record(prev[i]) by {
            assert(is_record(records[i]));
        }
        law_appended_records_read_back(contents, prev);
        let before = contents + framed(prev);
        if prev.len() > 0 {
            assert(before.last() == '\n');
        } else {
            assert(before =~= contents);
        }
        assert(is_record(records[records.len() - 1]));
        law_appended_record_reads_back(before, records.last());
        assert(contents + framed(records) =~= before + records.last().push('\n'));
        assert(log_lines_spec(contents) + records =~= (log_lines_spec(contents) + prev).push(
            records.last(),
        ));
    }
}

/// Why reading the log stopped: a record that is not a log entry, or, when a
/// cutoff is given, an entry whose timestamp chrono does not read as RFC 3339.
#[derive(Debug)]
pub enum ReadError<E> {
    Entry(E),
    Timestamp(chrono::ParseError),
}

/// The outcome of reading parsed records in order: the first failure stops
/// the reading (`Err(Some(e))` for a record that failed with `e`, `Err(None)`
/// for an unreadable timestamp); entries earlier than the cutoff are left out.
pub open spec fn entries_since_spec<E>(
    records: Seq<Result<LogEntry, E>>,
    cutoff: Option<UtcInstant>,
) -> Result<Seq<LogEntry>, Option<E>>
    decreases records.len(),
{
    if records.len() == 0 {
        Ok(Seq::empty())
    } else {
        match entries_since_spec(records.drop_last(), cutoff) {
            Err(f) => Err(f),
            Ok(kept) => match records.last() {
                Err(e) => Err(Some(e)),
                Ok(entry) => match cutoff {
                    None => Ok(kept.push(entry)),
                    Some(c) => match rfc3339_instant(entry.timestamp@) {
                        None => Err(None),
                        Some((secs, nanos)) => if spec_earlier(UtcInstant { secs, nanos }, c) {
                            Ok(kept)
                        } else {
                            Ok(kept.push(entry))
                        },
                    },
                },
            },
        }
    }
}

proof fn lemma_failure_stops<E>(records: Seq<Result<LogEntry, E>>, cutoff: Option<UtcInstant>, k: int)
    requires
        0 <= k <= records.len(),
        entries_since_spec(records.take(k), cutoff) is Err,
    ensures
        entries_since_spec(records, cutoff) == entries_since_spec(records.take(k), cutoff),
    decreases records.len() - k,
{
    if k < records.len() {
        assert(records.take(k + 1).drop_last() =~= records.take(k));
        lemma_failure_stops(records, cutoff, k + 1);
    } else {
        assert(records.take(k) =~= records);
    }
}

/// The entries whose timestamp is not earlier than `cutoff`, in order
/// (entries whose timestamp chrono does not read are left out).
pub open spec fn not_earlier_than(entries: Seq<LogEntry>, cutoff: UtcInstant) -> Seq<LogEntry>
    decreases entries.len(),
{
    if entries.len() == 0 {
        Seq::empty()
    } else {
        let prev = not_earlier_than(entries.drop_last(), cutoff);
        match rfc3339_instant(entries.last().timestamp@) {
            Some((secs, nanos)) => if spec_earlier(UtcInstant { secs, nanos }, cutoff) {
                prev
            } else {
                prev.push(entries.last())
            },
            None => prev,
        }
    }
}

/// Reading with a cutoff keeps, in order, exactly those entries of the read
/// without a cutoff that are not earlier than the cutoff (an entry at the
/// cutoff is kept), when every timestamp can be read.
pub proof fn law_cutoff_keeps_later_entries<E>(
    records: Seq<Result<LogEntry, E>>,
    all: Seq<LogEntry>,
    cutoff: UtcInstant,
)
    requires
        entries_since_spec(records, None) == Ok::<Seq<LogEntry>, Option<E>>(all),
        forall|i: int| 0 <= i < all.len() ==> #[trigger] rfc3339_instant(all[i].timestamp@) is Some,
    ensures
        entries_since_spec(records, Some(cutoff)) == Ok::<Seq<LogEntry>, Option<E>>(
            not_earlier_than(all, cutoff),
        ),
    decreases records.len(),
{
    if records.len() == 0 {
        assert(all =~= Seq::<LogEntry>::empty());
    } else {
        let prev = records.drop_last();
        let prev_all = entries_since_spec(prev, None)->Ok_0;
        let entry = records.last()->Ok_0;
        assert(all == prev_all.push(entry));
        assert forall|i: int| 0 <= i < prev_all.len() implies #[trigger] rfc3339_instant(
            prev_all[i].timestamp@,
        ) is Some by {
            assert(prev_all[i] == all[i]);
        }
        law_cutoff_keeps_later_entries(prev, prev_all, cutoff);
        assert(all.drop_last() =~= prev_all);
        assert(all.last() == entry);
        assert(rfc3339_instant(all[all.len() - 1].timestamp@) is Some);
    }
}

/// An instant given as seconds and nanoseconds.
pub open spec fn instant_of(t: (i64, u32)) -> UtcInstant {
    UtcInstant { secs: t.0, nanos: t.1 }
}

/// The entries of records that all parsed.
pub open spec fn entries_of<E>(records: Seq<Result<LogEntry, E>>) -> Seq<LogEntry> {
    Seq::new(records.len(), |i: int| records[i]->Ok_0)
}

/// Every record parsed.
pub open spec fn all_parsed<E>(records: Seq<Result<LogEntry, E>>) -> bool {
    forall|i: int| 0 <= i < records.len() ==> #[trigger] records[i] is Ok
}

/// Without a cutoff nothing is left out: when every record parsed, reading
/// gives every entry, in the order of the records.
pub proof fn law_no_cutoff_keeps_every_entry<E>(records: Seq<Result<LogEntry, E>>)
    requires
        all_parsed(records),
    ensures
        entries_since_spec(records, None) == Ok::<Seq<LogEntry>, Option<E>>(entries_of(records)),
        entries_of(records).len() == records.len(),
    decreases records.len(),
{
    if records.len() > 0 {
        let prev = records.drop_last();
        assert forall|i: int| 0 <= i < prev.len() implies #[trigger] prev[i] is Ok by {
            assert(records[i] is Ok);
        }
        law_no_cutoff_keeps_every_entry(prev);
        assert(records[records.len() - 1] is Ok);
        assert(entries_of(prev).push(records.last()->Ok_0) =~= entries_of(records));
    } else {
        assert(entries_of(records) =~= Seq::<LogEntry>::empty());
    }
}

/// With a cutoff only the timestamps decide: when every record parsed and
/// every timestamp can be read, reading keeps exactly the entries not earlier
/// than the cutoff, in order.
pub proof fn law_only_timestamps_decide<E>(records: Seq<Result<LogEntry, E>>, cutoff: UtcInstant)
    requires
        all_parsed(records),
        forall|i: int| 0 <= i < records.len() ==> #[trigger] rfc3339_instant(records[i]->Ok_0.timestamp@) is Some,
    ensures
        entries_since_spec(records, Some(cutoff)) == Ok::<Seq<LogEntry>, Option<E>>(
            not_earlier_than(entries_of(records), cutoff),
        ),
{
    law_no_cutoff_keeps_every_entry(records);
    let all = entries_of(records);
    assert forall|i: int| 0 <= i < all.len() implies #[trigger] rfc3339_instant(all[i].timestamp@) is Some by {
        assert(rfc3339_instant(records[i]->Ok_0.timestamp@) is Some);
    }
    law_cutoff_keeps_later_entries(records, all, cutoff);
}

/// An entry is left out by the cutoff exactly when its timestamp is earlier:
/// `not_earlier_than` keeps, in order, the entries whose instant is not
/// earlier than the cutoff and drops those whose instant is earlier.
pub proof fn law_not_earlier_than_by_timestamp(entries: Seq<LogEntry>, cutoff: UtcInstant, e: LogEntry)
    requires
        forall|i: int| 0 <= i < entries.len() ==> #[trigger] rfc3339_instant(entries[i].timestamp@) is Some,
    ensures
        not_earlier_than(entries, cutoff).contains(e) <==> (entries.contains(e) && !spec_earlier(
            instant_of(rfc3339_instant(e.timestamp@)->0),
            cutoff,
        )),
        not_earlier_than(entries, cutoff).len() <= entries.len(),
    decreases entries.len(),
{
    if entries.len() > 0 {
        let prev = entries.drop_last();
        assert forall|i: int| 0 <= i < prev.len() implies #[trigger] rfc3339_instant(prev[i].timestamp@) is Some by {
            assert(rfc3339_instant(entries[i].timestamp@) is Some);
        }
        law_not_earlier_than_by_timestamp(prev, cutoff, e);
        assert(rfc3339_instant(entries[entries.len() - 1].timestamp@) is Some);
        assert(entries.contains(e) <==> (prev.contains(e) || entries.last() == e)) by {
            if entries.contains(e) {
                let k = choose|k: int| 0 <= k < entries.len() && entries[k] == e;
                if k < entries.len() - 1 {
                    assert(prev[k] == e);
                }
            }
            if prev.contains(e) {
                let k = choose|k: int| 0 <= k < prev.len() && prev[k] == e;
                assert(entries[k] == e);
            }
            if entries.last() == e {
                assert(entries[entries.len() - 1] == e);
            }
        }
        let np = not_earlier_than(prev, cutoff);
        assert(np.push(entries.last()).contains(e) <==> (np.contains(e) || entries.last() == e)) by {
            if np.push(entries.last()).contains(e) {
                let k = choose|k: int| 0 <= k < np.len() + 1 && np.push(entries.last())[k] == e;
                if k < np.len() {
                    assert(np[k] == e);
                }
            }
            if np.contains(e) {
                let k = choose|k: int| 0 <= k < np.len() && np[k] == e;
                assert(np.push(entries.last())[k] == e);
            }
            if entries.last() == e {
                assert(np.push(entries.last())[np.len() as int] == e);
            }
        }
    }
}

/// The failure in the shape of `entries_since_spec`.
pub open spec fn read_error_view<E>(e: ReadError<E>) -> Option<E> {
    match e {
        ReadError::Entry(x) => Some(x),
        ReadError::Timestamp(_) => None,
    }
}

/// The entries of the log's records (each already parsed, or the reason it
/// could not be), in order, without those earlier than `cutoff`.
pub fn entries_since<E>(records: Vec<Result<LogEntry, E>>, cutoff: Option<UtcInstant>) -> (res: Result<
    Vec<LogEntry>,
    ReadError<E>,
>)
    ensures
        match res {
            Ok(v) => entries_since_spec(records@, cutoff) == Ok::<Seq<LogEntry>, Option<E>>(v@),
            Err(e) => entries_since_spec(records@, cutoff) == Err::<Seq<LogEntry>, Option<E>>(
                read_error_view(e),
            ),
        },
        all_parsed(records@) && cutoff is None ==> (res is Ok && res->Ok_0@ == entries_of(records@)
            && res->Ok_0@.len() == records@.len()),
        all_parsed(records@) && (forall|i: int| 0 <= i < records@.len() ==> #[trigger] rfc3339_instant(
            records@[i]->Ok_0.timestamp@,
        ) is Some) && cutoff is Some ==> (res is Ok && res->Ok_0@ == not_earlier_than(
            entries_of(records@),
            cutoff->0,
        )),
{
    proof {
        if all_parsed(records@) {
            law_no_cutoff_keeps_every_entry(records@);
            if cutoff is Some && (forall|i: int| 0 <= i < records@.len() ==> #[trigger] rfc3339_instant(
                records@[i]->Ok_0.timestamp@,
            ) is Some) {
                law_only_timestamps_decide(records@, cutoff->0);
            }
        }
    }
    let ghost all = records@;
    let mut kept: Vec<LogEntry> = Vec::new();
    assert(all.take(0) =~= Seq::<Result<LogEntry, E>>::empty());
    for item in it: records.into_iter()
        invariant
            it.seq() == all,
            entries_since_spec(all.take(it.index() as int), cutoff) == Ok::<Seq<LogEntry>, Option<E>>(kept@),
    {
        let ghost k = it.index() as int;
        assert(all.take(k + 1).drop_last() =~= all.take(k));
        assert(all.take(k + 1).last() == item);
        match item {
            Err(e) => {
                proof {
                    lemma_failure_stops(all, cutoff, k + 1);
                }
                return Err(ReadError::Entry(e));
            },
            Ok(entry) => {
                let keep = match cutoff {
                    None => true,
                    Some(c) => match parse_rfc3339(entry.timestamp.as_str()) {
                        Err(pe) => {
                            proof {
                                lemma_failure_stops(all, cutoff, k + 1);
                            }
                            return Err(ReadError::Timestamp(pe));
                        },
                        Ok(t) => !t.earlier_than(&c),
                    },
                };
                if keep {
                    kept.push(entry);
                }
            },
        }
    }
    assert(all.take(all.len() as int) =~= all);
    Ok(kept)
}

} // verus!
