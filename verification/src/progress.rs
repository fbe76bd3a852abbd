//! Progress accounting: throttled render decisions and the integer
//! arithmetic behind the rendered figures. Drawing itself is terminal work
//! and lives outside the library.

use vstd::prelude::*;

verus! {

/// Milliseconds that must pass after a render before the next one; an
/// update that reaches the total renders unconditionally.
pub const PROGRESS_INTERVAL_MS: u64 = 200;

/// Whether an update is rendered: more than the interval after the last
/// render, or — always — when the processed count has reached the total.
pub open spec fn should_render_spec(
    now_ms: u64,
    last_render_ms: u64,
    processed: u64,
    total: u64,
) -> bool {
    now_ms - last_render_ms > PROGRESS_INTERVAL_MS || processed == total
}

/// What one file's progress reporting keeps between updates: when it
/// started, when it last rendered, and how many bytes are expected.
pub struct ProgressTracker {
    pub start_ms: u64,
    pub last_render_ms: u64,
    pub total: u64,
}

impl ProgressTracker {
    /// Starts tracking a file of `total` bytes at time `start_ms`.
    pub fn new(start_ms: u64, total: u64) -> (r: ProgressTracker)
        ensures
            r.start_ms == start_ms,
            r.last_render_ms == start_ms,
            r.total == total,
    {
        ProgressTracker { start_ms, last_render_ms: start_ms, total }
    }

    /// Accounts for an update at time `now_ms` with `processed` bytes done,
    /// and says whether to render it: at most once per interval, except
    /// that reaching the total always renders. Rendering moves the throttle
    /// mark; a suppressed update leaves it alone.
    pub fn note_progress(&mut self, processed: u64, now_ms: u64) -> (render: bool)
        requires
            old(self).last_render_ms <= now_ms,
        ensures
            render == should_render_spec(now_ms, old(self).last_render_ms, processed, old(
                self,
            ).total),
            final(self).start_ms == old(self).start_ms,
            final(self).total == old(self).total,
            render ==> final(self).last_render_ms == now_ms,
            !render ==> final(self).last_render_ms == old(self).last_render_ms,
    {
        let render = now_ms - self.last_render_ms > PROGRESS_INTERVAL_MS || processed
            == self.total;
        if render {
            self.last_render_ms = now_ms;
        }
        render
    }
}

/// The whole-percent part of `processed` out of `total`; an empty file
/// counts as fully done.
pub fn percent_done(processed: u64, total: u64) -> (p: u64)
    requires
        processed <= total,
    ensures
        total == 0 ==> p == 100,
        total > 0 ==> p == processed as int * 100 / total as int,
        p <= 100,
{
    if total == 0 {
        100
    } else {
        let v: u128 = (processed as u128) * 100 / (total as u128);
        proof {
            assert(processed as int * 100 / total as int <= 100) by (nonlinear_arith)
                requires
                    0 < total,
                    processed <= total,
            ;
        }
        v as u64
    }
}

/// Average throughput in whole KiB per second: bytes processed, scaled to
/// seconds, divided by 1024 — zero while no time has passed.
pub fn throughput_kib_s(processed: u64, elapsed_ms: u64) -> (r: u64)
    ensures
        elapsed_ms == 0 ==> r == 0,
        elapsed_ms > 0 ==> r == processed as int * 1000 / elapsed_ms as int / 1024,
{
    if elapsed_ms == 0 {
        0
    } else {
        let num: u128 = (processed as u128) * 1000;
        let v: u128 = num / (elapsed_ms as u128) / 1024;
        proof {
            assert(processed as int * 1000 / elapsed_ms as int / 1024 <= processed) by (nonlinear_arith)
                requires
                    0 < elapsed_ms,
            ;
        }
        v as u64
    }
}

/// Whole seconds left at the current throughput: bytes still to process
/// over bytes per second — zero when the throughput is still zero, and
/// zero when the processed count has somehow passed the total.
pub fn eta_seconds(total: u64, processed: u64, speed_kib_s: u64) -> (r: u64)
    ensures
        speed_kib_s == 0 ==> r == 0,
        speed_kib_s > 0 ==> r == (if processed <= total {
            (total - processed) as int
        } else {
            0
        }) / (speed_kib_s as int * 1024),
{
    if speed_kib_s == 0 {
        0
    } else {
        let remaining: u64 = if processed <= total {
            total - processed
        } else {
            0
        };
        let div: u128 = (speed_kib_s as u128) * 1024;
        let v: u128 = (remaining as u128) / div;
        proof {
            assert((remaining as int) / (speed_kib_s as int * 1024) <= remaining) by (
            nonlinear_arith)
                requires
                    speed_kib_s > 0,
            ;
        }
        v as u64
    }
}

/// How many cells of a `width`-cell progress bar are filled at `percent`
/// (rounded to the nearest cell, halves up), and how many are left empty.
pub fn bar_widths(percent: u8, width: usize) -> (fe: (usize, usize))
    requires
        percent as int * width as int + 50 <= usize::MAX,
    ensures
        fe.0 == (percent as int * width as int + 50) / 100,
        fe.1 == if fe.0 <= width {
            (width - fe.0) as int
        } else {
            0
        },
{
    let filled: usize = (percent as usize * width + 50) / 100;
    let empty: usize = if filled <= width {
        width - filled
    } else {
        0
    };
    (filled, empty)
}

/// The running byte count after `k` chunks of the sizes given.
pub open spec fn prefix_total(sizes: Seq<u64>, k: int) -> int
    decreases k,
{
    if k <= 0 {
        0
    } else {
        prefix_total(sizes, k - 1) + sizes[k - 1]
    }
}

proof fn lemma_prefix_total_lt(sizes: Seq<u64>, k: int)
    requires
        forall|i: int| 0 <= i < sizes.len() ==> sizes[i] > 0,
        0 <= k < sizes.len(),
    ensures
        prefix_total(sizes, k) < prefix_total(sizes, sizes.len() as int),
    decreases sizes.len() - k,
{
    assert(prefix_total(sizes, k + 1) == prefix_total(sizes, k) + sizes[k]);
    if k + 1 < sizes.len() {
        lemma_prefix_total_lt(sizes, k + 1);
    }
}

/// Progress completion: reading a file in non-empty chunks, the running
/// byte count equals the whole size exactly at the last chunk and at no
/// earlier one — so the unthrottled render at `processed == total` happens
/// exactly once, whatever the throttle interval suppressed before it.
pub proof fn lemma_completion_reported_once(sizes: Seq<u64>, k: int)
    requires
        forall|i: int| 0 <= i < sizes.len() ==> sizes[i] > 0,
        1 <= k <= sizes.len(),
    ensures
        (prefix_total(sizes, k) == prefix_total(sizes, sizes.len() as int)) <==> (k
            == sizes.len()),
{
    if k < sizes.len() {
        lemma_prefix_total_lt(sizes, k);
    }
}

} // verus!
