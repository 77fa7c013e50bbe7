//! UTC timestamps as plain integers: whole seconds since the Unix epoch
//! plus the nanoseconds within the second.

use vstd::prelude::*;

verus! {

/// A UTC instant: `secs` since the Unix epoch and `nanos` within the second
/// (up to 1_999_999_999 during a leap second).
#[derive(Clone, Copy, Debug, PartialEq, Eq, Structural)]
pub struct Timestamp {
    pub secs: i64,
    pub nanos: u32,
}

impl Timestamp {
    /// Within chrono's representable range (years about -262000 to 262000)
    /// and with nanoseconds below two seconds.
    pub open spec fn valid(self) -> bool {
        -8_300_000_000_000 < self.secs < 8_300_000_000_000 && self.nanos < 2_000_000_000
    }
}

/// Nanoseconds from `b` to `a`.
pub open spec fn nanos_between(a: Timestamp, b: Timestamp) -> int {
    (a.secs - b.secs) * 1_000_000_000 + (a.nanos - b.nanos)
}

/// Whole seconds from `b` to `a`, rounded toward zero.
pub open spec fn seconds_between(a: Timestamp, b: Timestamp) -> int {
    let d = nanos_between(a, b);
    if d >= 0 {
        d / 1_000_000_000
    } else {
        -((-d) / 1_000_000_000)
    }
}

/// Calls `chrono::Utc::now` and splits the instant into
/// `DateTime::timestamp` and `DateTime::timestamp_subsec_nanos`; chrono
/// documents the latter as below 2_000_000_000, and its dates span about
/// 262000 years either side of year 0. Nothing else is stated, since the
/// instant comes from the clock.
#[verifier::external_body]
pub(crate) fn utc_now() -> (r: Timestamp)
    ensures
        r.valid(),
{
    let t = chrono::Utc::now();
    Timestamp { secs: t.timestamp(), nanos: t.timestamp_subsec_nanos() }
}

/// Whole seconds from `b` to `a`, rounded toward zero (what chrono's
/// `(a - b).num_seconds()` gives).
pub fn seconds_from(a: Timestamp, b: Timestamp) -> (r: i64)
    requires
        a.valid(),
        b.valid(),
    ensures
        r == seconds_between(a, b),
{
    let d: i128 = (a.secs as i128 - b.secs as i128) * 1_000_000_000i128 + (a.nanos as i128 - b.nanos as i128);
    assert(d == nanos_between(a, b));
    let s: i128 = if d >= 0 {
        d / 1_000_000_000i128
    } else {
        -((-d) / 1_000_000_000i128)
    };
    assert(-17_000_000_000_000 <= s <= 17_000_000_000_000) by (nonlinear_arith)
        requires
            -16_600_000_000_000_000_000_000 - 2_000_000_000 < d < 16_600_000_000_000_000_000_000
                + 2_000_000_000,
            d >= 0 ==> s == d / 1_000_000_000,
            d < 0 ==> s == -((-d) / 1_000_000_000),
    ;
    s as i64
}

} // verus!
