//! Instants in Coordinated Universal Time.
use chrono::DateTime;
use vstd::prelude::*;

verus! {

/// The first second that an instant can lie in: the start of 1 January of the
/// year -262143, in seconds since the start of 1970.
pub const MIN_SECS: i64 = -8_334_601_228_800;

/// The last second that an instant can lie in: the end of 31 December of the
/// year 262142, in seconds since the start of 1970.
pub const MAX_SECS: i64 = 8_210_266_876_799;

pub const NANOS_PER_SEC: u32 = 1_000_000_000;

/// Whether `secs` seconds and `nanos` nanoseconds after the start of 1970 is an
/// instant. A leap second counts as part of the second before it, which is the last
/// of a minute.
pub open spec fn is_instant(secs: int, nanos: int) -> bool {
    &&& MIN_SECS <= secs <= MAX_SECS
    &&& 0 <= nanos < 2 * NANOS_PER_SEC
    &&& nanos >= NANOS_PER_SEC ==> secs % 60 == 59
}

/// The leap second to count between two instants besides their seconds: that of
/// the one with the earlier time of day, where it lies in a leap second.
pub open spec fn leap_seconds(secs: int, nanos: int, since_secs: int, since_nanos: int) -> int {
    let time = secs % 86_400;
    let since_time = since_secs % 86_400;
    if time > since_time && since_nanos >= NANOS_PER_SEC {
        1
    } else if time < since_time && nanos >= NANOS_PER_SEC {
        -1
    } else {
        0
    }
}

/// The nanoseconds from the second instant to the first.
pub open spec fn nanos_between(secs: int, nanos: int, since_secs: int, since_nanos: int) -> int {
    (secs - since_secs + leap_seconds(secs, nanos, since_secs, since_nanos)) * NANOS_PER_SEC
        + nanos - since_nanos
}

/// The quotient of `a` and a positive `b`, rounded toward zero.
pub open spec fn truncated_quotient(a: int, b: int) -> int {
    if a >= 0 {
        a / b
    } else {
        -((-a) / b)
    }
}

/// The RFC 3339 notation of the instant `secs` seconds and `nanos` nanoseconds
/// after the start of 1970.
pub uninterp spec fn rfc3339(secs: i64, nanos: u32) -> Seq<char>;

/// Calls `chrono`: `DateTime::from_timestamp` for both instants, subtracts them
/// and takes `TimeDelta::num_seconds`. The result is the time from the second
/// instant to the first in whole seconds, rounded toward zero. Of leap seconds only
/// one that an instant itself lies in is counted.
#[verifier::external_body]
fn seconds_between(secs: i64, nanos: u32, since_secs: i64, since_nanos: u32) -> (r: i64)
    requires
        is_instant(secs as int, nanos as int),
        is_instant(since_secs as int, since_nanos as int),
    ensures
        r == truncated_quotient(
            nanos_between(secs as int, nanos as int, since_secs as int, since_nanos as int),
            NANOS_PER_SEC as int,
        ),
{
    let at = DateTime::from_timestamp(secs, nanos).expect("in range");
    let since = DateTime::from_timestamp(since_secs, since_nanos).expect("in range");
    (at - since).num_seconds()
}

/// Calls `DateTime::from_timestamp` and `DateTime::to_rfc3339` of `chrono`: the
/// text is a function of the instant.
#[verifier::external_body]
fn format_rfc3339(secs: i64, nanos: u32) -> (r: String)
    requires
        is_instant(secs as int, nanos as int),
    ensures
        r@ == rfc3339(secs, nanos),
{
    DateTime::from_timestamp(secs, nanos).expect("in range").to_rfc3339()
}

/// An instant, to the nanosecond.
#[derive(Debug, Clone, Copy, PartialEq, Eq, Structural)]
pub struct Timestamp {
    secs: i64,
    nanos: u32,
}

impl Timestamp {
    #[verifier::type_invariant]
    spec fn in_range(self) -> bool {
        is_instant(self.secs as int, self.nanos as int)
    }

    /// Seconds since the start of 1970, rounded down.
    pub closed spec fn spec_secs(self) -> i64 {
        self.secs
    }

    /// Nanoseconds within the second; those of a leap second follow.
    pub closed spec fn spec_nanos(self) -> u32 {
        self.nanos
    }

    /// The time from `since` to `self` in whole seconds, rounded toward zero.
    pub open spec fn spec_seconds_since(self, since: Timestamp) -> int {
        truncated_quotient(
            nanos_between(
                self.spec_secs() as int,
                self.spec_nanos() as int,
                since.spec_secs() as int,
                since.spec_nanos() as int,
            ),
            NANOS_PER_SEC as int,
        )
    }

    /// The RFC 3339 notation.
    pub open spec fn spec_to_rfc3339(self) -> Seq<char> {
        rfc3339(self.spec_secs(), self.spec_nanos())
    }

    /// The instant `secs` seconds and `nanos` nanoseconds after the start of
    /// 1970; none where that is out of range.
    pub fn new(secs: i64, nanos: u32) -> (r: Option<Timestamp>)
        ensures
            r is Some <==> is_instant(secs as int, nanos as int),
            r matches Some(t) ==> t.spec_secs() == secs && t.spec_nanos() == nanos,
    {
        if secs < MIN_SECS || MAX_SECS < secs || nanos >= 2_000_000_000 {
            return None;
        }
        let since_first: u64 = (secs - MIN_SECS) as u64;
        if nanos >= NANOS_PER_SEC && since_first % 60 != 59 {
            return None;
        }
        Some(Timestamp { secs, nanos })
    }

    pub fn secs(&self) -> (r: i64)
        ensures
            r == self.spec_secs(),
            MIN_SECS <= r <= MAX_SECS,
    {
        proof {
            use_type_invariant(self);
        }
        self.secs
    }

    pub fn nanos(&self) -> (r: u32)
        ensures
            r == self.spec_nanos(),
            is_instant(self.spec_secs() as int, r as int),
    {
        proof {
            use_type_invariant(self);
        }
        self.nanos
    }

    /// Whole seconds from `since` to this instant, rounded toward zero.
    pub fn seconds_since(&self, since: &Timestamp) -> (r: i64)
        ensures
            r == self.spec_seconds_since(*since),
    {
        proof {
            use_type_invariant(self);
            use_type_invariant(since);
        }
        seconds_between(self.secs, self.nanos, since.secs, since.nanos)
    }

    pub fn to_rfc3339(&self) -> (r: String)
        ensures
            r@ == self.spec_to_rfc3339(),
    {
        proof {
            use_type_invariant(self);
        }
        format_rfc3339(self.secs, self.nanos)
    }
}

/// No time passes between an instant and itself.
pub proof fn no_time_since_itself(t: Timestamp)
    ensures
        t.spec_seconds_since(t) == 0,
{
}

/// The time between two instants has opposite signs in the two directions.
pub proof fn seconds_since_is_antisymmetric(a: Timestamp, b: Timestamp)
    ensures
        a.spec_seconds_since(b) == -b.spec_seconds_since(a),
{
}

/// Between instants at the same part of a second, outside of leap seconds, as many
/// seconds have passed as their seconds say; a part of a second more makes no
/// difference to a later instant.
pub proof fn whole_seconds_are_counted(a: Timestamp, b: Timestamp)
    requires
        a.spec_nanos() < NANOS_PER_SEC,
        b.spec_nanos() < NANOS_PER_SEC,
        a.spec_secs() >= b.spec_secs(),
    ensures
        a.spec_nanos() >= b.spec_nanos() ==> a.spec_seconds_since(b) == a.spec_secs()
            - b.spec_secs(),
        a.spec_nanos() < b.spec_nanos() && a.spec_secs() > b.spec_secs()
            ==> a.spec_seconds_since(b) == a.spec_secs() - b.spec_secs() - 1,
{
}

} // verus!
