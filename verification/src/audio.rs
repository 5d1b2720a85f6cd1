//! How microphone input is cut into loudness windows.
use vstd::prelude::*;

verus! {

/// The lowest and highest sample rates asked of the microphone.
pub const MIN_SAMPLE_RATE: u32 = 8000u32;
pub const MAX_SAMPLE_RATE: u32 = 192000u32;

/// `requested.max(8000).min(192000)`.
pub open spec fn clamped_rate(requested: u32) -> u32 {
    if requested < MIN_SAMPLE_RATE {
        MIN_SAMPLE_RATE
    } else if requested > MAX_SAMPLE_RATE {
        MAX_SAMPLE_RATE
    } else {
        requested
    }
}

/// A requested rate from 8000 to 192000 Hz is used as it is; a lower one is
/// raised to 8000 Hz and a higher one lowered to 192000 Hz.
pub proof fn law_rate_is_clamped(requested: u32)
    ensures
        8000 <= requested <= 192000 ==> clamped_rate(requested) == requested,
        requested < 8000 ==> clamped_rate(requested) == 8000,
        requested > 192000 ==> clamped_rate(requested) == 192000,
        requested <= clamped_rate(requested) || clamped_rate(requested) == 192000,
{
}

/// The sample rate asked of the microphone for a requested rate.
pub fn capture_sample_rate(requested: u32) -> (rate: u32)
    ensures
        rate == clamped_rate(requested),
        MIN_SAMPLE_RATE <= rate <= MAX_SAMPLE_RATE,
        8000 <= requested <= 192000 ==> rate == requested,
        requested < 8000 ==> rate == 8000,
        requested > 192000 ==> rate == 192000,
{
    let r = if requested < MIN_SAMPLE_RATE {
        MIN_SAMPLE_RATE
    } else {
        requested
    };
    if r > MAX_SAMPLE_RATE {
        MAX_SAMPLE_RATE
    } else {
        r
    }
}

/// The number of samples in a window of `window_ms` milliseconds:
/// `(sample_rate * window_ms) / 1000`.
pub fn window_sample_count(sample_rate: u32, window_ms: u64) -> (count: usize)
    requires
        sample_rate * window_ms <= u64::MAX,
    ensures
        count == ((sample_rate * window_ms) / 1000) as usize,
{
    let product: u64 = (sample_rate as u64) * window_ms;
    (product / 1000) as usize
}

/// The samples per window in effect: a window always takes at least one sample.
pub open spec fn effective_window(window_samples: usize) -> int {
    if window_samples == 0 {
        1
    } else {
        window_samples as int
    }
}

/// The complete windows of a buffer of `sample_count` samples, as
/// `(start, end)` index ranges: consecutive runs of `window_samples` samples
/// (one when it is zero) from the start of the buffer; samples after the last
/// complete window belong to none.
pub fn frame_windows(sample_count: usize, window_samples: usize) -> (windows: Vec<(usize, usize)>)
    ensures
        windows@.len() == sample_count as int / effective_window(window_samples),
        forall|k: int| 0 <= k < windows@.len() ==> #[trigger] windows@[k] == (
            (k * effective_window(window_samples)) as usize,
            ((k + 1) * effective_window(window_samples)) as usize,
        ),
{
    let w: usize = if window_samples == 0 {
        1
    } else {
        window_samples
    };
    let mut windows: Vec<(usize, usize)> = Vec::new();
    let mut start: usize = 0;
    assert(windows@.len() * w == 0) by (nonlinear_arith)
        requires
            windows@.len() == 0,
    ;
    while sample_count - start >= w
        invariant
            w == effective_window(window_samples),
            w >= 1,
            start <= sample_count,
            start == windows@.len() * w,
            forall|k: int| 0 <= k < windows@.len() ==> #[trigger] windows@[k] == (
                (k * w) as usize,
                ((k + 1) * w) as usize,
            ),
        decreases sample_count - start,
    {
        proof {
            assert((windows@.len() + 1) * w == windows@.len() * w + w) by (nonlinear_arith);
        }
        windows.push((start, start + w));
        start = start + w;
    }
    proof {
        let n = windows@.len() as int;
        assert(n * w <= sample_count && sample_count < (n + 1) * w) by (nonlinear_arith)
            requires
                start == n * w,
                start <= sample_count,
                sample_count - start < w,
        ;
        lemma_floor_div(sample_count as int, w as int, n);
    }
    windows
}

proof fn lemma_floor_div(x: int, w: int, n: int)
    requires
        w >= 1,
        n >= 0,
        n * w <= x < (n + 1) * w,
    ensures
        x / w == n,
{
    vstd::arithmetic::div_mod::lemma_fundamental_div_mod(x, w);
    let q = x / w;
    let r = x % w;
    assert(0 <= r < w) by {
        vstd::arithmetic::div_mod::lemma_mod_bound(x, w);
    }
    assert(q == n) by (nonlinear_arith)
        requires
            x == w * q + r,
            0 <= r < w,
            n * w <= x < (n + 1) * w,
            w >= 1,
    ;
}

} // verus!
