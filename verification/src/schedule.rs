//! The spaced-repetition scheduler.
//!
//! A task's scheduling state is `(repetitions, interval, ease)`. After each
//! review the recall quality (an integer from 0 to `QUALITY_MAX`) drives a
//! state transition:
//!
//! - quality below `QUALITY_PASS`: the repetition count and the interval
//!   reset to their seed values and the ease factor drops by a fixed
//!   penalty, floored at `EASE_MIN_MILLI`;
//! - quality at or above `QUALITY_PASS`: the repetition count increments,
//!   the ease factor moves by an amount that grows with the distance of the
//!   quality from `QUALITY_MAX`, and the interval is a fixed seed for the
//!   first two repetitions and `previous interval * ease` afterwards.
//!
//! The ease factor is kept in thousandths (2500 stands for 2.5) so the
//! whole scheduler works on integers. Out-of-range inputs (an ease below
//! the floor, a quality above the scale) are normalized by clamping, never
//! reported as errors, and all arithmetic saturates instead of overflowing.

use vstd::prelude::*;

verus! {

/// Scheduling state of a single task.
#[derive(Clone, Copy, Debug, PartialEq, Eq, Structural)]
pub struct SchedState {
    /// Count of successful consecutive recalls.
    pub repetitions: u32,
    /// Duration in seconds until the next scheduled review.
    pub interval_secs: u64,
    /// Ease factor in thousandths (2500 = 2.5).
    pub ease_milli: u32,
}

/// Top of the recall-quality scale (all blanks correct).
pub const QUALITY_MAX: u8 = 5;

/// Lowest quality that still counts as a successful recall.
pub const QUALITY_PASS: u8 = 3;

/// Ease factor a fresh task starts with (2.5).
pub const EASE_DEFAULT_MILLI: u32 = 2500;

/// Floor of the ease factor (1.3).
pub const EASE_MIN_MILLI: u32 = 1300;

/// Amount the ease factor drops by on a failed recall (0.2).
pub const EASE_FAIL_PENALTY_MILLI: u32 = 200;

/// Interval of a fresh or just-failed task: due immediately.
pub const SEED_INTERVAL_SECS: u64 = 0;

/// Interval after the first successful recall: one day.
pub const FIRST_INTERVAL_SECS: u64 = 86400;

/// Interval after the second successful recall: six days.
pub const SECOND_INTERVAL_SECS: u64 = 518400;

impl SchedState {
    /// State a freshly inserted task starts in: no recalls yet, due
    /// immediately, default ease.
    pub open spec fn spec_initial() -> SchedState {
        SchedState {
            repetitions: 0,
            interval_secs: SEED_INTERVAL_SECS,
            ease_milli: EASE_DEFAULT_MILLI,
        }
    }

    /// Returns the initial scheduling state.
    pub fn initial() -> (r: SchedState)
        ensures
            r == SchedState::spec_initial(),
    {
        SchedState {
            repetitions: 0,
            interval_secs: SEED_INTERVAL_SECS,
            ease_milli: EASE_DEFAULT_MILLI,
        }
    }

    /// States reachable through `initial` and `reschedule`: the ease never
    /// sinks under its floor, and the interval is determined by (for the
    /// first two repetition counts) or bounded below by (afterwards) the
    /// fixed seed intervals.
    pub open spec fn wf(self) -> bool {
        &&& self.ease_milli >= EASE_MIN_MILLI
        &&& (self.repetitions == 0 ==> self.interval_secs == SEED_INTERVAL_SECS)
        &&& (self.repetitions == 1 ==> self.interval_secs == FIRST_INTERVAL_SECS)
        &&& (self.repetitions >= 2 ==> self.interval_secs >= SECOND_INTERVAL_SECS)
    }
}

/// Quality clamped onto the scale `0 ..= QUALITY_MAX`.
pub open spec fn clamp_quality(q: int) -> int {
    if q > QUALITY_MAX as int {
        QUALITY_MAX as int
    } else if q < 0 {
        0
    } else {
        q
    }
}

/// Ease normalized up to its floor.
pub open spec fn clamp_ease(e: int) -> int {
    if e < EASE_MIN_MILLI as int {
        EASE_MIN_MILLI as int
    } else {
        e
    }
}

/// Saturation of an integer into the `u32` range.
pub open spec fn sat_u32(v: int) -> int {
    if v > u32::MAX as int {
        u32::MAX as int
    } else if v < 0 {
        0
    } else {
        v
    }
}

/// Saturation of an integer into the `u64` range.
pub open spec fn sat_u64(v: int) -> int {
    if v > u64::MAX as int {
        u64::MAX as int
    } else if v < 0 {
        0
    } else {
        v
    }
}

/// Ease after a failed recall: the fixed penalty, floored.
pub open spec fn fail_ease(e: int) -> int {
    clamp_ease(e - EASE_FAIL_PENALTY_MILLI as int)
}

/// Ease after a successful recall of quality `q` (`QUALITY_PASS <= q <=
/// QUALITY_MAX`): moved by `0.1 - gap * (0.08 + gap * 0.02)` (in
/// thousandths) where `gap` is the distance from the top of the scale,
/// saturated into `u32` and floored.
pub open spec fn pass_ease(e: int, q: int) -> int {
    let gap = QUALITY_MAX as int - q;
    clamp_ease(sat_u32(e + 100 - gap * (80 + gap * 20)))
}

/// Interval grown by the ease factor, saturated into `u64`.
pub open spec fn grown_interval(prev: int, ease: int) -> int {
    sat_u64(prev * ease / 1000)
}

/// Interval after a successful recall that brought the repetition count to
/// `reps_new`: fixed seeds for the first two repetitions, ease growth
/// afterwards.
pub open spec fn pass_interval(reps_new: int, prev: int, ease_new: int) -> int {
    if reps_new == 1 {
        FIRST_INTERVAL_SECS as int
    } else if reps_new == 2 {
        SECOND_INTERVAL_SECS as int
    } else {
        grown_interval(prev, ease_new)
    }
}

/// The complete scheduler transition: new state and new absolute due time
/// (`now + new interval`, saturated).
pub open spec fn spec_reschedule(st: SchedState, q: int, now: int) -> (SchedState, u64) {
    let e0 = clamp_ease(st.ease_milli as int);
    let qq = clamp_quality(q);
    if qq < QUALITY_PASS as int {
        let next = SchedState {
            repetitions: 0,
            interval_secs: SEED_INTERVAL_SECS,
            ease_milli: fail_ease(e0) as u32,
        };
        (next, sat_u64(now + SEED_INTERVAL_SECS as int) as u64)
    } else {
        let reps = if st.repetitions == u32::MAX {
            u32::MAX as int
        } else {
            st.repetitions as int + 1
        };
        let e1 = pass_ease(e0, qq);
        let iv = pass_interval(reps, st.interval_secs as int, e1);
        let next = SchedState {
            repetitions: reps as u32,
            interval_secs: iv as u64,
            ease_milli: e1 as u32,
        };
        (next, sat_u64(now + iv) as u64)
    }
}

/// An interval grown by an ease at or above 1.0 never shrinks.
proof fn lemma_grown_at_least_prev(prev: int, ease: int)
    requires
        0 <= prev <= u64::MAX as int,
        ease >= 1000,
    ensures
        grown_interval(prev, ease) >= prev,
{
    assert(prev * ease >= prev * 1000) by (nonlinear_arith)
        requires
            prev >= 0,
            ease >= 1000,
    ;
    vstd::arithmetic::div_mod::lemma_div_is_ordered(prev * 1000, prev * ease, 1000);
    vstd::arithmetic::div_mod::lemma_div_multiples_vanish(prev, 1000);
}

/// Rescheduling keeps a well-formed state well formed: the ease stays at or
/// above its floor and the interval stays tied to the repetition count.
pub proof fn lemma_reschedule_preserves_wf(st: SchedState, q: int, now: int)
    requires
        st.wf(),
    ensures
        spec_reschedule(st, q, now).0.wf(),
{
    let e0 = clamp_ease(st.ease_milli as int);
    let qq = clamp_quality(q);
    if qq >= QUALITY_PASS as int {
        let e1 = pass_ease(e0, qq);
        if st.repetitions >= 2 {
            lemma_grown_at_least_prev(st.interval_secs as int, e1);
        }
    }
}

/// Scheduler monotonicity, success half: from a well-formed state, a
/// passing quality never decreases the interval.
pub proof fn lemma_pass_never_shrinks_interval(st: SchedState, q: int, now: int)
    requires
        st.wf(),
        clamp_quality(q) >= QUALITY_PASS as int,
    ensures
        spec_reschedule(st, q, now).0.interval_secs >= st.interval_secs,
{
    let e0 = clamp_ease(st.ease_milli as int);
    let e1 = pass_ease(e0, clamp_quality(q));
    if st.repetitions >= 2 {
        lemma_grown_at_least_prev(st.interval_secs as int, e1);
    }
}

/// Scheduler monotonicity, failure half: a failing quality always resets
/// the repetition count to zero and the interval to the seed value.
pub proof fn lemma_fail_resets(st: SchedState, q: int, now: int)
    requires
        clamp_quality(q) < QUALITY_PASS as int,
    ensures
        spec_reschedule(st, q, now).0.repetitions == 0,
        spec_reschedule(st, q, now).0.interval_secs == SEED_INTERVAL_SECS,
        spec_reschedule(st, q, now).0.ease_milli as int == fail_ease(clamp_ease(st.ease_milli as int)),
{
}

/// Addition on `u64` that saturates at the maximum instead of overflowing.
pub fn sat_add_u64(a: u64, b: u64) -> (r: u64)
    ensures
        r as int == sat_u64(a as int + b as int),
{
    if a > u64::MAX - b {
        u64::MAX
    } else {
        a + b
    }
}

/// Computes the scheduling state and absolute due time after a review of
/// recall quality `quality` performed at time `now`.
pub fn reschedule(st: &SchedState, quality: u8, now: u64) -> (r: (SchedState, u64))
    ensures
        r == spec_reschedule(*st, quality as int, now as int),
{
    let q: u8 = if quality > QUALITY_MAX {
        QUALITY_MAX
    } else {
        quality
    };
    let e0: u32 = if st.ease_milli < EASE_MIN_MILLI {
        EASE_MIN_MILLI
    } else {
        st.ease_milli
    };
    if q < QUALITY_PASS {
        let e1: u32 = if e0 - EASE_FAIL_PENALTY_MILLI < EASE_MIN_MILLI {
            EASE_MIN_MILLI
        } else {
            e0 - EASE_FAIL_PENALTY_MILLI
        };
        let next = SchedState {
            repetitions: 0,
            interval_secs: SEED_INTERVAL_SECS,
            ease_milli: e1,
        };
        let due: u64 = sat_add_u64(now, SEED_INTERVAL_SECS);
        (next, due)
    } else {
        let reps: u32 = if st.repetitions == u32::MAX {
            u32::MAX
        } else {
            st.repetitions + 1
        };
        let gap: i64 = (QUALITY_MAX - q) as i64;
        assert(0 <= gap <= 2);
        assert(gap * (80 + gap * 20) <= 240) by (nonlinear_arith)
            requires
                0 <= gap <= 2,
        ;
        assert(gap * (80 + gap * 20) >= 0) by (nonlinear_arith)
            requires
                0 <= gap <= 2,
        ;
        let delta: i64 = 100 - gap * (80 + gap * 20);
        let e_raw: i64 = e0 as i64 + delta;
        let e_sat: u32 = if e_raw > u32::MAX as i64 {
            u32::MAX
        } else if e_raw < 0 {
            0u32
        } else {
            e_raw as u32
        };
        let e1: u32 = if e_sat < EASE_MIN_MILLI {
            EASE_MIN_MILLI
        } else {
            e_sat
        };
        let iv: u64 = if reps == 1 {
            FIRST_INTERVAL_SECS
        } else if reps == 2 {
            SECOND_INTERVAL_SECS
        } else {
            let prev128: u128 = st.interval_secs as u128;
            let ease128: u128 = e1 as u128;
            assert(prev128 as int * ease128 as int <= u64::MAX as int * u32::MAX as int)
                by (nonlinear_arith)
                requires
                    0 <= prev128 as int <= u64::MAX as int,
                    0 <= ease128 as int <= u32::MAX as int,
            ;
            let prod: u128 = prev128 * ease128 / 1000;
            if prod > u64::MAX as u128 {
                u64::MAX
            } else {
                prod as u64
            }
        };
        let next = SchedState {
            repetitions: reps,
            interval_secs: iv,
            ease_milli: e1,
        };
        let due: u64 = sat_add_u64(now, iv);
        (next, due)
    }
}

} // verus!
