//! Non-panicking expiry arithmetic.
//!
//! Every short-lived credential is stamped with `now + ttl`, and the ttl is not
//! always a constant: it comes from configuration, over the wire, or from a
//! person typing into a form. These helpers saturate at the representable
//! bounds, which for an expiry is the right degenerate answer: a saturated
//! deadline is "effectively never", a saturated cutoff "effectively always".

use chrono::{DateTime, Duration, Utc};
use vstd::prelude::*;

verus! {

/// The last second a UTC date and time can name.
pub const LAST_SECOND: i64 = 8_210_266_876_799;

/// The first second a UTC date and time can name.
pub const FIRST_SECOND: i64 = -8_334_601_228_800;

/// The longest span, in whole seconds and in either direction.
pub const SPAN_SECONDS: i64 = 9_223_372_036_854_775;

/// Seconds in a day, for the callers that think in days.
pub const DAY: i64 = 86_400;

/// A point in UTC time: seconds since the epoch, and nanoseconds into the
/// second. A leap second is written as nanoseconds past the billion, on the
/// last second of a minute.
#[derive(Clone, Copy, Debug, PartialEq, Eq, Structural)]
pub struct Moment {
    pub secs: i64,
    pub nanos: u32,
}

impl Moment {
    /// Whether a UTC date and time can hold this moment.
    pub open spec fn valid(self) -> bool {
        &&& FIRST_SECOND <= self.secs <= LAST_SECOND
        &&& self.nanos < 2_000_000_000
        &&& self.nanos >= 1_000_000_000 ==> self.secs as int % 60 == 59
    }

    pub open spec fn in_leap_second(self) -> bool {
        self.nanos >= 1_000_000_000
    }

    /// At or before, in calendar order.
    pub open spec fn at_or_before(self, other: Moment) -> bool {
        self.secs < other.secs || self.secs == other.secs && self.nanos <= other.nanos
    }
}

/// The latest moment.
pub open spec fn latest() -> Moment {
    Moment { secs: LAST_SECOND, nanos: 999_999_999 }
}

/// The earliest moment.
pub open spec fn earliest() -> Moment {
    Moment { secs: FIRST_SECOND, nanos: 0 }
}

/// The second that `base` shifted by `by` seconds falls in. Leaving a leap
/// second counts from the second it is written on going forward, and from the
/// second after it going back.
pub open spec fn shifted_second(base: Moment, by: int) -> int {
    if base.in_leap_second() && by < 0 {
        base.secs + 1 + by
    } else {
        base.secs + by
    }
}

/// `base` shifted by `by` seconds, where the calendar reaches that far.
pub open spec fn shifted(base: Moment, by: int) -> Option<Moment> {
    let second = shifted_second(base, by);
    if FIRST_SECOND <= second <= LAST_SECOND {
        Some(
            Moment {
                secs: second as i64,
                nanos: if base.in_leap_second() && by != 0 {
                    (base.nanos - 1_000_000_000) as u32
                } else {
                    base.nanos
                },
            },
        )
    } else {
        None
    }
}

/// `base + secs`, or the latest moment where that cannot be named.
pub open spec fn moment_after(base: Moment, secs: int) -> Moment {
    if -SPAN_SECONDS <= secs <= SPAN_SECONDS && shifted(base, secs) is Some {
        shifted(base, secs)->0
    } else {
        latest()
    }
}

/// `base - secs`, or the earliest moment where that cannot be named.
pub open spec fn moment_before(base: Moment, secs: int) -> Moment {
    if -SPAN_SECONDS <= secs <= SPAN_SECONDS && shifted(base, -secs) is Some {
        shifted(base, -secs)->0
    } else {
        earliest()
    }
}

/// `days` in seconds, kept within the range of the count.
pub open spec fn days_in_seconds(days: int) -> int {
    if days * DAY > i64::MAX {
        i64::MAX as int
    } else if days * DAY < i64::MIN {
        i64::MIN as int
    } else {
        days * DAY
    }
}

/// `chrono::Duration::try_seconds`: a span of that many seconds, or none where
/// the count is beyond `i64::MAX / 1000` in either direction. The span is handed
/// back as its whole seconds.
#[verifier::external_body]
fn try_seconds(secs: i64) -> (res: Option<i64>)
    ensures
        res == (if -SPAN_SECONDS <= secs <= SPAN_SECONDS {
            Some(secs)
        } else {
            None::<i64>
        }),
{
    Duration::try_seconds(secs).map(|d| d.num_seconds())
}

/// `chrono::DateTime::<Utc>::checked_add_signed`, on a span of whole seconds:
/// the shifted date and time, or none where the calendar does not reach.
#[verifier::external_body]
fn checked_add(base: Moment, span: i64) -> (res: Option<Moment>)
    requires
        base.valid(),
        -SPAN_SECONDS <= span <= SPAN_SECONDS,
    ensures
        res == shifted(base, span as int),
{
    let at: DateTime<Utc> = DateTime::from_timestamp(base.secs, base.nanos)?;
    let sum = at.checked_add_signed(Duration::seconds(span))?;
    Some(Moment { secs: sum.timestamp(), nanos: sum.timestamp_subsec_nanos() })
}

/// `chrono::DateTime::<Utc>::checked_sub_signed`, on a span of whole seconds:
/// the same shift the other way.
#[verifier::external_body]
fn checked_sub(base: Moment, span: i64) -> (res: Option<Moment>)
    requires
        base.valid(),
        -SPAN_SECONDS <= span <= SPAN_SECONDS,
    ensures
        res == shifted(base, -span),
{
    let at: DateTime<Utc> = DateTime::from_timestamp(base.secs, base.nanos)?;
    let difference = at.checked_sub_signed(Duration::seconds(span))?;
    Some(Moment { secs: difference.timestamp(), nanos: difference.timestamp_subsec_nanos() })
}

/// `chrono::DateTime::<Utc>::MAX_UTC`: the last nanosecond of the year 262142.
#[verifier::external_body]
fn max_utc() -> (res: Moment)
    ensures
        res == latest(),
{
    let max = DateTime::<Utc>::MAX_UTC;
    Moment { secs: max.timestamp(), nanos: max.timestamp_subsec_nanos() }
}

/// `chrono::DateTime::<Utc>::MIN_UTC`: the start of the year -262143.
#[verifier::external_body]
fn min_utc() -> (res: Moment)
    ensures
        res == earliest(),
{
    let min = DateTime::<Utc>::MIN_UTC;
    Moment { secs: min.timestamp(), nanos: min.timestamp_subsec_nanos() }
}

/// A moment that the clock can tell: one that the calendar can name, not before
/// 1970, and not in a leap second.
pub open spec fn told(now: Moment) -> bool {
    now.valid() && now.secs >= 0 && !now.in_leap_second()
}

/// `chrono::Utc::now`: the system clock. Nothing more is said of the time it tells
/// than that the calendar can name it and that it is not before 1970; the clock
/// has no leap seconds. It panics where the clock is set to a time before 1970.
#[verifier::external_body]
fn utc_now() -> (res: Moment)
    ensures
        told(res),
{
    let now = Utc::now();
    Moment { secs: now.timestamp(), nanos: now.timestamp_subsec_nanos() }
}

/// `base + secs`, saturating at the latest moment.
pub fn after(base: Moment, secs: i64) -> (res: Moment)
    requires
        base.valid(),
    ensures
        res == moment_after(base, secs as int),
        res.valid(),
{
    let sum: Option<Moment> = match try_seconds(secs) {
        Some(span) => checked_add(base, span),
        None => None,
    };
    match sum {
        Some(at) => at,
        None => max_utc(),
    }
}

/// `base - secs`, saturating at the earliest moment.
pub fn before(base: Moment, secs: i64) -> (res: Moment)
    requires
        base.valid(),
    ensures
        res == moment_before(base, secs as int),
        res.valid(),
{
    let difference: Option<Moment> = match try_seconds(secs) {
        Some(span) => checked_sub(base, span),
        None => None,
    };
    match difference {
        Some(at) => at,
        None => min_utc(),
    }
}

/// `now + secs`, saturating rather than panicking.
pub fn expires_in(secs: i64) -> (res: Moment)
    ensures
        res.valid(),
        exists|now: Moment| told(now) && res == #[trigger] moment_after(now, secs as int),
{
    let now: Moment = utc_now();
    after(now, secs)
}

/// `now - secs`, saturating: the cutoff for "everything older than that".
pub fn ago(secs: i64) -> (res: Moment)
    ensures
        res.valid(),
        exists|now: Moment| told(now) && res == #[trigger] moment_before(now, secs as int),
{
    let now: Moment = utc_now();
    before(now, secs)
}

/// `days` in seconds. The product overflows long before the days do, so it
/// saturates too.
pub fn seconds_in(days: i64) -> (res: i64)
    ensures
        res == days_in_seconds(days as int),
{
    let product: i128 = days as i128 * DAY as i128;
    if product > i64::MAX as i128 {
        i64::MAX
    } else if product < i64::MIN as i128 {
        i64::MIN
    } else {
        product as i64
    }
}

/// A deadline that was this many days away when it was set.
pub open spec fn due_in(at: Moment, days: int) -> bool {
    at.valid() && exists|now: Moment|
        told(now) && at == #[trigger] moment_after(now, days_in_seconds(days))
}

/// `now + days`, saturating, the conversion to seconds with it.
pub fn in_days(days: i64) -> (res: Moment)
    ensures
        due_in(res, days as int),
{
    expires_in(seconds_in(days))
}

// ---------------------------------------------------------------------------
// Laws
// ---------------------------------------------------------------------------

/// A deadline a positive time away is never before its base, and a cutoff never
/// after it, however absurd the time.
pub proof fn law_deadlines_lie_ahead_and_cutoffs_behind(base: Moment, secs: int)
    requires
        base.valid(),
        0 < secs <= i64::MAX,
    ensures
        base.secs <= moment_after(base, secs).secs,
        moment_before(base, secs).secs <= base.secs,
{
}

/// A longer time gives no earlier deadline.
pub proof fn law_a_longer_time_is_no_earlier(base: Moment, short: int, long: int)
    requires
        base.valid(),
        0 <= short <= long <= i64::MAX,
        short > 0 || !base.in_leap_second(),
    ensures
        moment_after(base, short).at_or_before(moment_after(base, long)),
{
}

/// Going back undoes going forward, as long as neither saturates and the base
/// is no leap second.
pub proof fn law_before_undoes_after(base: Moment, secs: int)
    requires
        base.valid(),
        !base.in_leap_second(),
        -SPAN_SECONDS <= secs <= SPAN_SECONDS,
        FIRST_SECOND <= base.secs + secs <= LAST_SECOND,
    ensures
        moment_before(moment_after(base, secs), secs) == base,
{
}

/// A time too long to count saturates: "effectively never" and "effectively
/// always".
pub proof fn law_absurd_times_saturate(base: Moment, secs: int)
    requires
        base.valid(),
        secs > LAST_SECOND - FIRST_SECOND + 1,
    ensures
        moment_after(base, secs) == latest(),
        moment_before(base, secs) == earliest(),
{
}

/// Time passes second by second: what lies so many seconds ahead, or behind, is that many
/// seconds away, to the same part of a second, as far as time is told.
pub proof fn law_time_passes_second_by_second(base: Moment, secs: int)
    requires
        base.valid(),
        !base.in_leap_second(),
        -9_223_372_036_854_775 <= secs <= 9_223_372_036_854_775,
    ensures
        -8_334_601_228_800 <= base.secs + secs <= 8_210_266_876_799 ==> moment_after(base, secs) == (Moment {
            secs: (base.secs + secs) as i64,
            nanos: base.nanos,
        }),
        base.secs + secs > 8_210_266_876_799 || base.secs + secs < -8_334_601_228_800 ==> moment_after(base, secs)
            == latest(),
        -8_334_601_228_800 <= base.secs - secs <= 8_210_266_876_799 ==> moment_before(base, secs) == (Moment {
            secs: (base.secs - secs) as i64,
            nanos: base.nanos,
        }),
        base.secs - secs > 8_210_266_876_799 || base.secs - secs < -8_334_601_228_800 ==> moment_before(
            base,
            secs,
        ) == earliest(),
{
}

/// A day has eighty-six thousand four hundred seconds; more days than fit are as many as
/// fit.
pub proof fn law_days_are_counted_in_seconds(days: int)
    ensures
        i64::MIN <= days * 86_400 <= i64::MAX ==> days_in_seconds(days) == days * 86_400,
        days * 86_400 > i64::MAX ==> days_in_seconds(days) == i64::MAX,
        days * 86_400 < i64::MIN ==> days_in_seconds(days) == i64::MIN,
{
}

/// A leap second counts as the end of its minute: going on from it begins at its second,
/// going back from it at the next, and either leaves it.
pub proof fn law_a_leap_second_is_left_either_way(base: Moment, secs: int)
    requires
        base.valid(),
        base.in_leap_second(),
        0 < secs <= 9_223_372_036_854_775,
        base.secs + secs <= 8_210_266_876_799,
        -8_334_601_228_800 <= base.secs + 1 - secs,
    ensures
        moment_after(base, secs) == (Moment {
            secs: (base.secs + secs) as i64,
            nanos: (base.nanos - 1_000_000_000) as u32,
        }),
        moment_before(base, secs) == (Moment {
            secs: (base.secs + 1 - secs) as i64,
            nanos: (base.nanos - 1_000_000_000) as u32,
        }),
{
}

} // verus!
