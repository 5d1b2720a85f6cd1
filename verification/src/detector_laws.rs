//! What the detector promises over a whole sequence of windows.
use vstd::prelude::*;
use crate::level::Dbfs;
use crate::detector::{detector_step, detector_wf, in_cooldown, no_peak, saturating_sub, starts_cooldown, DetectorView};

verus! {

/// The state after feeding `inputs` (loudness, time in ms) one by one.
pub open spec fn run_state(v: DetectorView, inputs: Seq<(Dbfs, u64)>) -> DetectorView
    decreases inputs.len(),
{
    if inputs.len() == 0 {
        v
    } else {
        detector_step(run_state(v, inputs.drop_last()), inputs.last().0, inputs.last().1).0
    }
}

/// What the window `inputs[i]` returns when `inputs` is fed from state `v`.
pub open spec fn event_at(v: DetectorView, inputs: Seq<(Dbfs, u64)>, i: int) -> Option<(Dbfs, u64)> {
    detector_step(run_state(v, inputs.take(i)), inputs[i].0, inputs[i].1).1
}

/// The loudest of a sequence of windows (`f32::max` from negative infinity).
pub open spec fn peak_of(windows: Seq<(Dbfs, u64)>) -> Dbfs
    decreases windows.len(),
{
    if windows.len() == 0 {
        no_peak()
    } else {
        peak_of(windows.drop_last()).spec_max(windows.last().0)
    }
}

/// The number of counted windows that completes a run.
pub open spec fn run_length(sustain_windows: usize) -> int {
    if sustain_windows == 0 {
        1
    } else {
        sustain_windows as int
    }
}

/// A state from which no run is in progress.
pub open spec fn idle(v: DetectorView) -> bool {
    detector_wf(v) && v.consecutive_above == 0
}

/// The window `inputs[j]` counts towards a run: it comes outside any
/// cooldown and is at or above the threshold.
pub open spec fn counted(v0: DetectorView, inputs: Seq<(Dbfs, u64)>, j: int) -> bool {
    &&& !in_cooldown(run_state(v0, inputs.take(j)), inputs[j].1)
    &&& inputs[j].0.spec_ge(v0.threshold_dbfs)
}

/// The window `inputs[i]` starts a cooldown: it raises an event or interrupts a run.
pub open spec fn starts_cooldown_at(v0: DetectorView, inputs: Seq<(Dbfs, u64)>, i: int) -> bool {
    starts_cooldown(run_state(v0, inputs.take(i)), inputs[i].0, inputs[i].1)
}

/// What holds of the state after `k` windows: the run in progress is made of
/// the last `consecutive_above` windows, all counted, with no run in progress
/// before the first of them; its peak is their loudest and it started at the
/// first of them.
pub open spec fn run_invariant(v0: DetectorView, inputs: Seq<(Dbfs, u64)>, k: int) -> bool {
    let v = run_state(v0, inputs.take(k));
    let c = v.consecutive_above as int;
    &&& detector_wf(v)
    &&& v.threshold_dbfs == v0.threshold_dbfs
    &&& v.sustain_windows == v0.sustain_windows
    &&& v.cooldown_ms == v0.cooldown_ms
    &&& c <= k
    &&& forall|j: int| k - c <= j < k ==> #[trigger] counted(v0, inputs, j)
    &&& run_state(v0, inputs.take(k - c)).consecutive_above == 0
    &&& v.active_peak_dbfs == peak_of(inputs.subrange(k - c, k))
    &&& (c > 0 ==> v.active_since_ms == Some(inputs[k - c].1))
}

proof fn lemma_run_take_step(v0: DetectorView, inputs: Seq<(Dbfs, u64)>, k: int)
    requires
        0 <= k < inputs.len(),
    ensures
        run_state(v0, inputs.take(k + 1)) == detector_step(
            run_state(v0, inputs.take(k)),
            inputs[k].0,
            inputs[k].1,
        ).0,
{
    assert(inputs.take(k + 1).drop_last() =~= inputs.take(k));
}

proof fn lemma_peak_extend(inputs: Seq<(Dbfs, u64)>, a: int, b: int)
    requires
        0 <= a <= b < inputs.len(),
    ensures
        peak_of(inputs.subrange(a, b + 1)) == peak_of(inputs.subrange(a, b)).spec_max(inputs[b].0),
{
    assert(inputs.subrange(a, b + 1).drop_last() =~= inputs.subrange(a, b));
}

proof fn lemma_run_invariant(v0: DetectorView, inputs: Seq<(Dbfs, u64)>, k: int)
    requires
        idle(v0),
        0 <= k <= inputs.len(),
    ensures
        run_invariant(v0, inputs, k),
    decreases k,
{
    if k == 0 {
        assert(inputs.take(0) =~= Seq::<(Dbfs, u64)>::empty());
        assert(inputs.subrange(0, 0) =~= Seq::<(Dbfs, u64)>::empty());
    } else {
        lemma_run_invariant(v0, inputs, k - 1);
        lemma_run_take_step(v0, inputs, k - 1);
        let v = run_state(v0, inputs.take(k - 1));
        let c = v.consecutive_above as int;
        let w = run_state(v0, inputs.take(k));
        if w.consecutive_above == 0 {
            assert(inputs.subrange(k, k) =~= Seq::<(Dbfs, u64)>::empty());
        } else {
            lemma_peak_extend(inputs, k - 1 - c, k - 1);
            if c == 0 {
                assert(inputs.subrange(k - 1, k - 1) =~= Seq::<(Dbfs, u64)>::empty());
            }
        }
    }
}

/// An event is raised only by a run of `sustain_windows` consecutive windows
/// (one when it is zero) that are all at or above the threshold; its peak is
/// the loudest window of that run and its duration runs from the first window
/// of the run to the last.
pub proof fn law_event_is_a_sustained_run(v0: DetectorView, inputs: Seq<(Dbfs, u64)>, i: int)
    requires
        idle(v0),
        0 <= i < inputs.len(),
        event_at(v0, inputs, i) is Some,
    ensures
        ({
            let r = run_length(v0.sustain_windows);
            let (peak, duration) = event_at(v0, inputs, i)->0;
            &&& i + 1 >= r
            &&& forall|j: int| i + 1 - r <= j <= i ==> #[trigger] inputs[j].0.spec_ge(v0.threshold_dbfs)
            &&& peak == peak_of(inputs.subrange(i + 1 - r, i + 1))
            &&& duration == saturating_sub(inputs[i].1, inputs[i + 1 - r].1)
        }),
{
    lemma_run_invariant(v0, inputs, i);
    let v = run_state(v0, inputs.take(i));
    let c = v.consecutive_above as int;
    lemma_peak_extend(inputs, i - c, i);
    let r = run_length(v0.sustain_windows);
    assert forall|j: int| i + 1 - r <= j <= i implies #[trigger] inputs[j].0.spec_ge(v0.threshold_dbfs) by {
        if j < i {
            assert(counted(v0, inputs, j));
        }
    }
}

/// When an event is raised, exactly: window `i` raises an event if and only
/// if it ends a stretch of `sustain_windows` counted windows (one when it is
/// zero) before which no run was in progress, that is, a stretch that begins
/// at the start, or after a window that was quiet, fell in a cooldown or
/// raised an event.
pub proof fn law_when_an_event_is_raised(v0: DetectorView, inputs: Seq<(Dbfs, u64)>, i: int)
    requires
        idle(v0),
        0 <= i < inputs.len(),
    ensures
        event_at(v0, inputs, i) is Some <==> ({
            let r = run_length(v0.sustain_windows);
            &&& i + 1 >= r
            &&& forall|j: int| i + 1 - r <= j <= i ==> #[trigger] counted(v0, inputs, j)
            &&& run_state(v0, inputs.take(i + 1 - r)).consecutive_above == 0
        }),
{
    let r = run_length(v0.sustain_windows);
    lemma_run_invariant(v0, inputs, i);
    let v = run_state(v0, inputs.take(i));
    let c = v.consecutive_above as int;
    if event_at(v0, inputs, i) is Some {
        assert(c + 1 == r);
        assert(counted(v0, inputs, i));
        assert forall|j: int| i + 1 - r <= j <= i implies #[trigger] counted(v0, inputs, j) by {
            if j < i {
                assert(i - c <= j);
            }
        }
    }
    if i + 1 >= r && (forall|j: int| i + 1 - r <= j <= i ==> #[trigger] counted(v0, inputs, j))
        && run_state(v0, inputs.take(i + 1 - r)).consecutive_above == 0 {
        lemma_counting(v0, inputs, i + 1 - r, r - 1);
        assert(counted(v0, inputs, i));
        assert(v.consecutive_above == r - 1);
    }
}

proof fn lemma_counting(v0: DetectorView, inputs: Seq<(Dbfs, u64)>, s: int, m: int)
    requires
        idle(v0),
        0 <= s,
        0 <= m < run_length(v0.sustain_windows),
        s + m <= inputs.len(),
        run_state(v0, inputs.take(s)).consecutive_above == 0,
        forall|j: int| s <= j < s + m ==> #[trigger] counted(v0, inputs, j),
    ensures
        run_state(v0, inputs.take(s + m)).consecutive_above == m,
        forall|j: int| s <= j < s + m ==> #[trigger] event_at(v0, inputs, j) is None,
    decreases m,
{
    if m > 0 {
        lemma_counting(v0, inputs, s, m - 1);
        lemma_run_invariant(v0, inputs, s + m - 1);
        lemma_run_take_step(v0, inputs, s + m - 1);
        assert(counted(v0, inputs, s + m - 1));
    }
}

proof fn lemma_loud_stretch(v0: DetectorView, inputs: Seq<(Dbfs, u64)>, s: int, m: int)
    requires
        idle(v0),
        0 <= s,
        0 <= m < run_length(v0.sustain_windows),
        s + m < inputs.len(),
        run_state(v0, inputs.take(s)).consecutive_above == 0,
        !in_cooldown(run_state(v0, inputs.take(s)), inputs[s].1),
        forall|j: int| s <= j <= s + m ==> #[trigger] inputs[j].0.spec_ge(v0.threshold_dbfs),
    ensures
        forall|j: int| s <= j <= s + m ==> #[trigger] counted(v0, inputs, j),
        m > 0 ==> run_state(v0, inputs.take(s + m)).cooldown_until_ms is None,
    decreases m,
{
    if m > 0 {
        lemma_loud_stretch(v0, inputs, s, m - 1);
        lemma_counting(v0, inputs, s, m - 1);
        lemma_run_invariant(v0, inputs, s + m - 1);
        lemma_run_take_step(v0, inputs, s + m - 1);
        assert(counted(v0, inputs, s + m - 1));
        assert(inputs[s + m].0.spec_ge(v0.threshold_dbfs));
    }
}

/// Sustained loudness raises an event: a stretch of `sustain_windows`
/// windows (one when it is zero) at or above the threshold raises an event
/// at its last window and none before, when it begins with no run in progress
/// and outside any cooldown, as from `Detector::new`, or once a cooldown has
/// passed.
pub proof fn law_loud_stretch_raises_an_event(v0: DetectorView, inputs: Seq<(Dbfs, u64)>, s: int)
    requires
        idle(v0),
        0 <= s,
        s + run_length(v0.sustain_windows) <= inputs.len(),
        run_state(v0, inputs.take(s)).consecutive_above == 0,
        !in_cooldown(run_state(v0, inputs.take(s)), inputs[s].1),
        forall|j: int| s <= j < s + run_length(v0.sustain_windows) ==> #[trigger] inputs[j].0.spec_ge(
            v0.threshold_dbfs,
        ),
    ensures
        event_at(v0, inputs, s + run_length(v0.sustain_windows) - 1) is Some,
        forall|j: int| s <= j < s + run_length(v0.sustain_windows) - 1 ==> #[trigger] event_at(v0, inputs, j) is None,
{
    let r = run_length(v0.sustain_windows);
    lemma_loud_stretch(v0, inputs, s, r - 1);
    lemma_counting(v0, inputs, s, r - 1);
    law_when_an_event_is_raised(v0, inputs, s + r - 1);
}

proof fn lemma_cooldown_holds(v0: DetectorView, inputs: Seq<(Dbfs, u64)>, i: int, j: int)
    requires
        idle(v0),
        0 <= i < j <= inputs.len(),
        starts_cooldown_at(v0, inputs, i),
        inputs[i].1 + v0.cooldown_ms <= u64::MAX,
        forall|k: int| i < k < j ==> #[trigger] inputs[k].1 < inputs[i].1 + v0.cooldown_ms,
    ensures
        run_state(v0, inputs.take(j)).cooldown_until_ms == Some((inputs[i].1 + v0.cooldown_ms) as u64),
        run_state(v0, inputs.take(j)).consecutive_above == 0,
    decreases j - i,
{
    lemma_run_invariant(v0, inputs, j - 1);
    lemma_run_take_step(v0, inputs, j - 1);
    if j == i + 1 {
    } else {
        lemma_cooldown_holds(v0, inputs, i, j - 1);
        assert(inputs[j - 1].1 < inputs[i].1 + v0.cooldown_ms);
    }
}

/// After an event, or a window that interrupts a run, no window raises an
/// event until the cooldown has passed: with window times that do not go
/// backwards, a window earlier than that window's time plus `cooldown_ms`
/// returns no event.
pub proof fn law_cooldown_blocks_events(v0: DetectorView, inputs: Seq<(Dbfs, u64)>, i: int, j: int)
    requires
        idle(v0),
        0 <= i < j < inputs.len(),
        forall|a: int, b: int| i <= a <= b <= j ==> #[trigger] inputs[a].1 <= #[trigger] inputs[b].1,
        starts_cooldown_at(v0, inputs, i),
        inputs[i].1 + v0.cooldown_ms <= u64::MAX,
        inputs[j].1 < inputs[i].1 + v0.cooldown_ms,
    ensures
        event_at(v0, inputs, j) is None,
{
    assert forall|k: int| i < k < j implies #[trigger] inputs[k].1 < inputs[i].1 + v0.cooldown_ms by {
        assert(inputs[k].1 <= inputs[j].1);
    }
    lemma_cooldown_holds(v0, inputs, i, j);
}

/// Counting starts afresh after a cooldown: if window `j` is the first after
/// the cooldown that window `i` started, then `sustain_windows` windows (one
/// when it is zero) at or above the threshold from `j` on raise an event at
/// the last of them and none before.
pub proof fn law_counting_restarts_after_cooldown(v0: DetectorView, inputs: Seq<(Dbfs, u64)>, i: int, j: int)
    requires
        idle(v0),
        0 <= i < j,
        j + run_length(v0.sustain_windows) <= inputs.len(),
        starts_cooldown_at(v0, inputs, i),
        inputs[i].1 + v0.cooldown_ms <= u64::MAX,
        forall|k: int| i < k < j ==> #[trigger] inputs[k].1 < inputs[i].1 + v0.cooldown_ms,
        inputs[j].1 >= inputs[i].1 + v0.cooldown_ms,
        forall|k: int| j <= k < j + run_length(v0.sustain_windows) ==> #[trigger] inputs[k].0.spec_ge(
            v0.threshold_dbfs,
        ),
    ensures
        event_at(v0, inputs, j + run_length(v0.sustain_windows) - 1) is Some,
        forall|k: int| j <= k < j + run_length(v0.sustain_windows) - 1 ==> #[trigger] event_at(v0, inputs, k) is None,
{
    lemma_cooldown_holds(v0, inputs, i, j);
    law_loud_stretch_raises_an_event(v0, inputs, j);
}

} // verus!
