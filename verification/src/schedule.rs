//! The daily scheduler: how long to wait until the next run.
//!
//! The pipeline runs once per day at a fixed UTC time of day. Given the
//! current time as seconds since the Unix epoch (UTC days are a uniform
//! 86 400 seconds in this timescale), the delay until the next occurrence of
//! the target time of day is plain arithmetic: take today's instant at that
//! time of day; if it is not strictly in the future, take tomorrow's.

use vstd::prelude::*;
use vstd::arithmetic::div_mod::{
    lemma_fundamental_div_mod, lemma_mod_division_less_than_divisor, lemma_mod_multiples_vanish,
    lemma_small_mod,
};

verus! {

/// Seconds in one UTC calendar day.
pub const SECONDS_PER_DAY: u64 = 86400;

/// Default target hour (UTC) of the daily run.
pub const DEFAULT_HOUR: u8 = 20;

/// Default target minute of the daily run.
pub const DEFAULT_MINUTE: u8 = 32;

/// Default target second of the daily run.
pub const DEFAULT_SECOND: u8 = 0;

/// The target time of day, as a second-of-day count in `[0, 86400)`.
pub open spec fn second_of_day(hour: u8, minute: u8, second: u8) -> int {
    hour * 3600 + minute * 60 + second
}

/// The delay from `now` to the next instant whose time of day is
/// `hour:minute:second`: today's such instant if it is strictly in the
/// future, else the same instant one day later.
pub open spec fn spec_next_delay(now: int, hour: u8, minute: u8, second: u8) -> int {
    let target_today = now - (now % (SECONDS_PER_DAY as int)) + second_of_day(
        hour,
        minute,
        second,
    );
    if target_today > now {
        target_today - now
    } else {
        target_today + SECONDS_PER_DAY - now
    }
}

/// How long to sleep before the next run: the duration, in seconds, from
/// `now` (seconds since the Unix epoch) to the next occurrence of the given
/// UTC time of day.
///
/// The result is strictly positive — the next run never fires twice at one
/// instant — at most one day, and lands exactly on the target time of day.
pub fn next_delay_until_target_utc(now: u64, hour: u8, minute: u8, second: u8) -> (d: u64)
    requires
        hour < 24,
        minute < 60,
        second < 60,
        now <= u64::MAX - 2 * SECONDS_PER_DAY,
    ensures
        d == spec_next_delay(now as int, hour, minute, second),
        1 <= d <= SECONDS_PER_DAY,
        (now + d) % (SECONDS_PER_DAY as int) == second_of_day(hour, minute, second),
{
    let target: u64 = (hour as u64) * 3600 + (minute as u64) * 60 + (second as u64);
    proof {
        lemma_mod_division_less_than_divisor(now as int, SECONDS_PER_DAY as int);
    }
    let midnight: u64 = now - now % SECONDS_PER_DAY;
    let target_today: u64 = midnight + target;
    let d: u64 = if target_today > now {
        target_today - now
    } else {
        target_today + SECONDS_PER_DAY - now
    };
    proof {
        let day = SECONDS_PER_DAY as int;
        let q = now as int / day;
        lemma_fundamental_div_mod(now as int, day);
        assert(midnight == day * q);
        lemma_small_mod(target as nat, day as nat);
        lemma_mod_multiples_vanish(q, target as int, day);
        assert((now + d) as int == day * q + target || (now + d) as int == day * (q + 1)
            + target) by {
            assert(day * (q + 1) == day * q + day) by (nonlinear_arith);
        }
        lemma_mod_multiples_vanish(q + 1, target as int, day);
    }
    d
}

/// A wall-clock reading as a non-negative epoch-second count. A clock that
/// reports an instant before the epoch is clamped to the epoch itself, so
/// that downstream delay arithmetic never sees a negative time.
pub fn clamp_timestamp(t: i64) -> (r: u64)
    ensures
        r == if t >= 0 {
            t as int
        } else {
            0
        },
{
    if t >= 0 {
        t as u64
    } else {
        0
    }
}

} // verus!
