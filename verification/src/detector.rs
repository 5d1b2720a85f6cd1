//! The yell detector: a state machine fed one loudness window at a time.
use vstd::prelude::*;
use crate::level::Dbfs;
use crate::clock::{rfc3339_text, utc_now, UtcInstant, UtcNow};

verus! {

/// A detected yell.
#[derive(Clone, Debug)]
pub struct YellEvent {
    /// When the event was raised, as RFC 3339 text in UTC; `None` when the
    /// system clock could not be read (before 1970, or beyond chrono's range).
    pub timestamp: Option<String>,
    /// The loudest window of the run that raised the event.
    pub peak_dbfs: Dbfs,
    /// Milliseconds from the first window of the run to the last.
    pub duration_ms: u64,
}

/// The detector's state as plain values.
pub struct DetectorView {
    pub threshold_dbfs: Dbfs,
    pub sustain_windows: usize,
    pub cooldown_ms: u64,
    pub consecutive_above: usize,
    pub active_since_ms: Option<u64>,
    pub active_peak_dbfs: Dbfs,
    pub cooldown_until_ms: Option<u64>,
}

/// Detects sustained loudness above a threshold, with a cooldown after each event.
#[derive(Debug)]
pub struct Detector {
    threshold_dbfs: Dbfs,
    sustain_windows: usize,
    cooldown_ms: u64,
    consecutive_above: usize,
    active_since_ms: Option<u64>,
    active_peak_dbfs: Dbfs,
    cooldown_until_ms: Option<u64>,
}

/// Negative infinity, the peak of a run that has no window yet.
pub open spec fn no_peak() -> Dbfs {
    Dbfs { key: 0x007F_FFFFu32 }
}

/// `x.saturating_sub(y)` on milliseconds.
pub open spec fn saturating_sub(x: u64, y: u64) -> u64 {
    if x >= y {
        (x - y) as u64
    } else {
        0
    }
}

/// The window at `now_ms` falls inside the cooldown that follows an event.
pub open spec fn in_cooldown(v: DetectorView, now_ms: u64) -> bool {
    v.cooldown_until_ms matches Some(until) && now_ms < until
}

/// The window counts towards a run: it is outside any cooldown and at or
/// above the threshold.
pub open spec fn counts(v: DetectorView, rms_dbfs: Dbfs, now_ms: u64) -> bool {
    !in_cooldown(v, now_ms) && rms_dbfs.spec_ge(v.threshold_dbfs)
}

/// The window completes a run of `sustain_windows` counted windows.
pub open spec fn fires(v: DetectorView, rms_dbfs: Dbfs, now_ms: u64) -> bool {
    counts(v, rms_dbfs, now_ms) && v.consecutive_above + 1 >= v.sustain_windows
}

/// The window interrupts a run in progress: it is outside any cooldown and
/// below the threshold (or NaN) while a run has at least one window.
pub open spec fn interrupts(v: DetectorView, rms_dbfs: Dbfs, now_ms: u64) -> bool {
    !in_cooldown(v, now_ms) && !rms_dbfs.spec_ge(v.threshold_dbfs) && v.consecutive_above > 0
}

/// The window starts a cooldown: it raises an event or interrupts a run.
pub open spec fn starts_cooldown(v: DetectorView, rms_dbfs: Dbfs, now_ms: u64) -> bool {
    fires(v, rms_dbfs, now_ms) || interrupts(v, rms_dbfs, now_ms)
}

/// The state with no run in progress.
pub open spec fn cleared(v: DetectorView) -> DetectorView {
    DetectorView { consecutive_above: 0, active_since_ms: None, active_peak_dbfs: no_peak(), ..v }
}

/// One window: the next state and, when the window completes a run, the
/// event's peak and duration.
///
/// - A window inside a cooldown returns nothing and drops any run.
/// - Otherwise a window at or above the threshold extends the run; the run's
///   `sustain_windows`-th window (the first when that is zero) raises an event
///   and starts a cooldown of `cooldown_ms`.
/// - A window below the threshold drops the run; when it interrupts a run in
///   progress (debounce), it also starts a cooldown of `cooldown_ms`, so that a
///   shout broken by a dip does not raise an event on its way back up.
pub open spec fn detector_step(v: DetectorView, rms_dbfs: Dbfs, now_ms: u64) -> (DetectorView, Option<(Dbfs, u64)>) {
    if in_cooldown(v, now_ms) {
        (cleared(v), None)
    } else {
        let open = DetectorView { cooldown_until_ms: None, ..v };
        if !rms_dbfs.spec_ge(v.threshold_dbfs) {
            if v.consecutive_above > 0 {
                (
                    DetectorView {
                        cooldown_until_ms: Some((now_ms + v.cooldown_ms) as u64),
                        ..cleared(open)
                    },
                    None,
                )
            } else {
                (cleared(open), None)
            }
        } else {
            let since = match v.active_since_ms {
                Some(s) => s,
                None => now_ms,
            };
            let peak = v.active_peak_dbfs.spec_max(rms_dbfs);
            if v.consecutive_above + 1 < v.sustain_windows {
                (
                    DetectorView {
                        consecutive_above: (v.consecutive_above + 1) as usize,
                        active_since_ms: Some(since),
                        active_peak_dbfs: peak,
                        ..open
                    },
                    None,
                )
            } else {
                (
                    DetectorView {
                        cooldown_until_ms: Some((now_ms + v.cooldown_ms) as u64),
                        ..cleared(open)
                    },
                    Some((peak, saturating_sub(now_ms, since))),
                )
            }
        }
    }
}

/// The invariant of the detector's state: a run in progress is shorter than
/// `sustain_windows`, and it has a start time exactly when it has a window.
pub open spec fn detector_wf(v: DetectorView) -> bool {
    &&& (v.consecutive_above == 0 || v.consecutive_above < v.sustain_windows)
    &&& (v.active_since_ms is Some <==> v.consecutive_above > 0)
    &&& (v.consecutive_above == 0 ==> v.active_peak_dbfs == no_peak())
}

/// The timestamp of an event, where there is one, is the RFC 3339 text of an
/// instant that the clock gave (not inside a leap second).
pub open spec fn clock_text(timestamp: Option<String>) -> bool {
    match timestamp {
        Some(text) => exists|t: UtcInstant| t.nanos < 1_000_000_000 && text@ == rfc3339_text(t.secs, t.nanos),
        None => true,
    }
}

/// The peak and duration of an event, if any.
pub open spec fn event_core(e: Option<YellEvent>) -> Option<(Dbfs, u64)> {
    match e {
        Some(ev) => Some((ev.peak_dbfs, ev.duration_ms)),
        None => None,
    }
}

impl View for Detector {
    type V = DetectorView;

    closed spec fn view(&self) -> DetectorView {
        DetectorView {
            threshold_dbfs: self.threshold_dbfs,
            sustain_windows: self.sustain_windows,
            cooldown_ms: self.cooldown_ms,
            consecutive_above: self.consecutive_above,
            active_since_ms: self.active_since_ms,
            active_peak_dbfs: self.active_peak_dbfs,
            cooldown_until_ms: self.cooldown_until_ms,
        }
    }
}

impl Clone for Detector {
    fn clone(&self) -> (res: Detector)
        ensures
            res@ == self@,
    {
        proof {
            use_type_invariant(self);
        }
        Detector { ..*self }
    }
}

impl Detector {
    /// The detector's state invariant, which every detector keeps.
    pub open spec fn wf(&self) -> bool {
        detector_wf(self@)
    }

    #[verifier::type_invariant]
    spec fn keeps_invariant(self) -> bool {
        detector_wf(self@)
    }

    /// A detector with no run in progress and no cooldown.
    pub fn new(threshold_dbfs: Dbfs, sustain_windows: usize, cooldown_ms: u64) -> (d: Detector)
        ensures
            d.wf(),
            d@ == (DetectorView {
                threshold_dbfs,
                sustain_windows,
                cooldown_ms,
                consecutive_above: 0,
                active_since_ms: None,
                active_peak_dbfs: no_peak(),
                cooldown_until_ms: None,
            }),
    {
        Detector {
            threshold_dbfs,
            sustain_windows,
            cooldown_ms,
            consecutive_above: 0,
            active_since_ms: None,
            active_peak_dbfs: Dbfs::neg_infinity(),
            cooldown_until_ms: None,
        }
    }

    /// Whether the window `rms_dbfs` at `now_ms` would start a cooldown (and
    /// so compute `now_ms + cooldown_ms`).
    pub fn would_start_cooldown(&self, rms_dbfs: Dbfs, now_ms: u64) -> (res: bool)
        ensures
            res == starts_cooldown(self@, rms_dbfs, now_ms),
    {
        if let Some(cooldown_until) = self.cooldown_until_ms {
            if now_ms < cooldown_until {
                return false;
            }
        }
        if rms_dbfs.ge(self.threshold_dbfs) {
            self.sustain_windows <= self.consecutive_above || self.sustain_windows
                - self.consecutive_above <= 1
        } else {
            self.consecutive_above > 0
        }
    }

    /// Whether the window `rms_dbfs` at `now_ms` would raise an event.
    fn would_fire(&self, rms_dbfs: Dbfs, now_ms: u64) -> (res: bool)
        ensures
            res == fires(self@, rms_dbfs, now_ms),
    {
        if let Some(cooldown_until) = self.cooldown_until_ms {
            if now_ms < cooldown_until {
                return false;
            }
        }
        rms_dbfs.ge(self.threshold_dbfs) && (self.sustain_windows <= self.consecutive_above
            || self.sustain_windows - self.consecutive_above <= 1)
    }

    /// Feeds the loudness of the window that ends at `now_ms`; returns the
    /// event when this window completes a sustained run. The clock is read
    /// when, and only when, the window raises an event; the event carries
    /// that reading's text (see `update_at`).
    pub fn update(&mut self, rms_dbfs: Dbfs, now_ms: u64) -> (event: Option<YellEvent>)
        requires
            starts_cooldown(old(self)@, rms_dbfs, now_ms) ==> now_ms + old(self)@.cooldown_ms
                <= u64::MAX,
        ensures
            final(self).wf(),
            final(self)@ == detector_step(old(self)@, rms_dbfs, now_ms).0,
            event_core(event) == detector_step(old(self)@, rms_dbfs, now_ms).1,
            event matches Some(e) ==> clock_text(e.timestamp),
    {
        let clock = if self.would_fire(rms_dbfs, now_ms) {
            utc_now()
        } else {
            None
        };
        proof {
            if clock is Some {
                assert(clock_text(Some(clock->0.rfc3339)));
            }
        }
        self.update_at(rms_dbfs, now_ms, clock)
    }

    /// `update` with the clock reading given: the window's decision as in
    /// `update`, and an event raised by it carries the reading's RFC 3339
    /// text as its timestamp, whatever the run, or no timestamp when there is
    /// no reading.
    pub fn update_at(&mut self, rms_dbfs: Dbfs, now_ms: u64, clock: Option<UtcNow>) -> (event: Option<YellEvent>)
        requires
            starts_cooldown(old(self)@, rms_dbfs, now_ms) ==> now_ms + old(self)@.cooldown_ms
                <= u64::MAX,
        ensures
            final(self).wf(),
            final(self)@ == detector_step(old(self)@, rms_dbfs, now_ms).0,
            event_core(event) == detector_step(old(self)@, rms_dbfs, now_ms).1,
            event matches Some(e) ==> match clock {
                Some(c) => e.timestamp == Some(c.rfc3339),
                None => e.timestamp is None,
            },
    {
        proof {
            use_type_invariant(&*self);
        }
        let in_cooldown = match self.cooldown_until_ms {
            Some(until) => now_ms < until,
            None => false,
        };
        if in_cooldown {
            *self = Detector {
                consecutive_above: 0,
                active_since_ms: None,
                active_peak_dbfs: Dbfs::neg_infinity(),
                ..*self
            };
            return None;
        }
        if !rms_dbfs.ge(self.threshold_dbfs) {
            let cooldown_until_ms = if self.consecutive_above > 0 {
                Some(now_ms + self.cooldown_ms)
            } else {
                None
            };
            *self = Detector {
                consecutive_above: 0,
                active_since_ms: None,
                active_peak_dbfs: Dbfs::neg_infinity(),
                cooldown_until_ms,
                ..*self
            };
            return None;
        }
        let count = self.consecutive_above + 1;
        let since = match self.active_since_ms {
            Some(s) => s,
            None => now_ms,
        };
        let peak = self.active_peak_dbfs.max(rms_dbfs);
        if count < self.sustain_windows {
            *self = Detector {
                consecutive_above: count,
                active_since_ms: Some(since),
                active_peak_dbfs: peak,
                cooldown_until_ms: None,
                ..*self
            };
            return None;
        }
        let timestamp = match clock {
            Some(c) => Some(c.rfc3339),
            None => None,
        };
        let event = YellEvent { timestamp, peak_dbfs: peak, duration_ms: now_ms.saturating_sub(since) };
        *self = Detector {
            consecutive_above: 0,
            active_since_ms: None,
            active_peak_dbfs: Dbfs::neg_infinity(),
            cooldown_until_ms: Some(now_ms + self.cooldown_ms),
            ..*self
        };
        Some(event)
    }
}

} // verus!
