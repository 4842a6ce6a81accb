//! Dates as the pages show them, and the numbers people type into them.

use crate::auth::expiry::{in_days, Moment};
use crate::text::{parse_number, trim};
use chrono::{DateTime, Utc};
use vstd::prelude::*;

verus! {

/// What `chrono::DateTime::<Utc>::format` writes for a moment under
/// `%Y-%m-%d`.
pub uninterp spec fn utc_day(secs: i64, nanos: u32) -> Seq<char>;

/// What `chrono::DateTime::<Utc>::format` writes for a moment under
/// `%Y-%m-%d %H:%M UTC`.
pub uninterp spec fn utc_minute(secs: i64, nanos: u32) -> Seq<char>;

/// `chrono::DateTime::<Utc>::format` under `%Y-%m-%d`: the day of a moment.
#[verifier::external_body]
pub(crate) fn day_of(at: Moment) -> (res: String)
    requires
        at.valid(),
    ensures
        res@ == utc_day(at.secs, at.nanos),
{
    DateTime::<Utc>::from_timestamp(at.secs, at.nanos).unwrap_or_default().format("%Y-%m-%d").to_string()
}

/// `chrono::DateTime::<Utc>::format` under `%Y-%m-%d %H:%M UTC`: a moment
/// down to the minute.
#[verifier::external_body]
pub(crate) fn minute_of(at: Moment) -> (res: String)
    requires
        at.valid(),
    ensures
        res@ == utc_minute(at.secs, at.nanos),
{
    DateTime::<Utc>::from_timestamp(at.secs, at.nanos).unwrap_or_default().format("%Y-%m-%d %H:%M UTC").to_string()
}

/// A number somebody typed, where it is one, is above zero and goes no
/// further than `most`. Anything else, a blank among it, is no number.
pub open spec fn positive(typed: Seq<char>, most: int) -> Option<int> {
    match crate::text::number(crate::text::trimmed(typed)) {
        Some(n) => if 0 < n <= most {
            Some(n as int)
        } else {
            None
        },
        None => None,
    }
}

/// A count somebody typed: blank, or anything but a count, is no limit.
pub fn count(typed: &str) -> (res: Option<i32>)
    ensures
        match res {
            Some(n) => positive(typed@, i32::MAX as int) == Some(n as int),
            None => positive(typed@, i32::MAX as int) is None,
        },
{
    match parse_number(trim(typed).as_str()) {
        Some(n) => if 0 < n && n <= i32::MAX as u64 {
            Some(n as i32)
        } else {
            None
        },
        None => None,
    }
}

/// The deadline that a number of days, as somebody typed it, sets.
pub open spec fn deadline(typed: Seq<char>, at: Option<Moment>) -> bool {
    match positive(typed, i64::MAX as int) {
        Some(days) => at matches Some(m) && crate::auth::expiry::due_in(m, days),
        None => at is None,
    }
}

/// When something expires after so many days; blank is never.
pub fn expires_after(typed: &str) -> (res: Option<Moment>)
    ensures
        deadline(typed@, res),
{
    match parse_number(trim(typed).as_str()) {
        Some(n) => if 0 < n && n <= i64::MAX as u64 {
            Some(in_days(n as i64))
        } else {
            None
        },
        None => None,
    }
}

/// A count is read where it is a whole number from one up to the most, whatever white
/// space stands around it; nothing, zero and more than that are no count.
pub proof fn law_a_count_lies_between_one_and_the_most(
    a: Seq<char>,
    n: nat,
    b: Seq<char>,
    typed: Seq<char>,
    most: int,
)
    requires
        crate::text::blank(a),
        crate::text::blank(b),
        most <= u64::MAX,
    ensures
        0 < n <= most ==> positive(a + crate::text::decimal(n) + b, most) == Some(n as int),
        n == 0 || n > most ==> positive(a + crate::text::decimal(n) + b, most) is None,
        crate::text::blank(typed) ==> positive(typed, most) is None,
        positive(typed, most) is Some ==> 0 < positive(typed, most)->0 <= most,
{
    crate::text::lemma_decimal_is_read_back(n);
    let d = crate::text::decimal(n);
    assert(crate::text::ascii_digit(d[0]));
    assert(crate::text::ascii_digit(d[d.len() - 1]));
    crate::text::law_trimming_takes_the_white_space_around(a, d, b);
    crate::text::law_only_numbers_are_read(n, Seq::empty(), 0);
    crate::text::law_white_space_alone_is_trimmed_to_nothing(typed);
    if crate::text::blank(typed) {
        assert(crate::text::trimmed(typed) =~= Seq::<char>::empty());
    }
}

/// A number of days that is typed sets a deadline that many days ahead, as far as time is
/// told; anything else that is typed sets none.
pub proof fn law_days_typed_set_a_deadline(
    a: Seq<char>,
    n: nat,
    b: Seq<char>,
    at: Option<Moment>,
    none: Option<Moment>,
)
    requires
        crate::text::blank(a),
        crate::text::blank(b),
        0 < n <= 100_000,
        deadline(a + crate::text::decimal(n) + b, at),
        deadline(a, none),
    ensures
        none is None,
        at is Some,
        at->0 == crate::auth::expiry::latest() || exists|now: Moment| #[trigger]
            crate::auth::expiry::told(now) && at->0.secs == now.secs + n * 86_400,
{
    law_a_count_lies_between_one_and_the_most(a, n, b, a, i64::MAX as int);
    crate::auth::expiry::law_days_are_counted_in_seconds(n as int);
    let now = choose|now: Moment|
        crate::auth::expiry::told(now) && at->0 == #[trigger] crate::auth::expiry::moment_after(
            now,
            crate::auth::expiry::days_in_seconds(n as int),
        );
    assert(crate::auth::expiry::told(now));
}

} // verus!
