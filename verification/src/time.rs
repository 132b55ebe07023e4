//! Instants on the UTC clock, the spans between them, and how they read in
//! Montreal.
use vstd::prelude::*;

verus! {

/// First second that the calendar can represent: 1 January of the year -262143.
pub const MIN_SECS: i64 = -8334601228800;

/// Last second that the calendar can represent: 31 December of the year 262142.
pub const MAX_SECS: i64 = 8210266876799;

pub const NANOS_PER_SEC: u32 = 1_000_000_000;

/// The pair names an instant: whole seconds since 1970-01-01 00:00:00 UTC that
/// the calendar reaches, and the nanoseconds past that second.
pub open spec fn is_instant(secs: i64, nanos: u32) -> bool {
    MIN_SECS <= secs <= MAX_SECS && nanos < NANOS_PER_SEC
}

/// Nanoseconds since 1970-01-01 00:00:00 UTC.
pub open spec fn total_nanos(secs: i64, nanos: u32) -> int {
    secs * 1_000_000_000 + nanos
}

/// Quotient rounded toward zero.
pub open spec fn truncated_div(a: int, b: int) -> int
    recommends
        b > 0,
{
    if a >= 0 {
        a / b
    } else {
        -((-a) / b)
    }
}

/// The patterns in which this library prints local times.
pub open spec fn is_local_pattern(pattern: Seq<char>) -> bool {
    ||| pattern == "%H:%M"@
    ||| pattern == "%H:%M %Z"@
    ||| pattern == "%H:%M:%S %Z"@
    ||| pattern == "%Y-%m-%d"@
    ||| pattern == "%Y-%m-%d %H:%M %Z"@
}

/// How the instant `nanos` after 1970-01-01 00:00:00 UTC reads in Montreal,
/// printed by chrono's `DateTime::format` with the given pattern.
pub uninterp spec fn montreal_time(nanos: int, pattern: Seq<char>) -> Seq<char>;

/// Reads the clock with `chrono::Utc::now`. The reading is an instant that the
/// calendar represents, not before 1970; nothing more is claimed of it. (A clock
/// set before 1970 makes `Utc::now` panic.)
#[verifier::external_body]
fn clock_reading() -> (r: (i64, u32))
    ensures
        is_instant(r.0, r.1),
        r.0 >= 0,
{
    let now = chrono::Utc::now();
    (now.timestamp(), now.timestamp_subsec_nanos())
}

/// `TimeDelta::num_seconds` of the difference of two chrono instants: the whole
/// seconds from the first to the second, rounded toward zero.
#[verifier::external_body]
fn whole_seconds(start_secs: i64, start_nanos: u32, end_secs: i64, end_nanos: u32) -> (r: i64)
    requires
        is_instant(start_secs, start_nanos),
        is_instant(end_secs, end_nanos),
    ensures
        r == truncated_div(
            total_nanos(end_secs, end_nanos) - total_nanos(start_secs, start_nanos),
            1_000_000_000,
        ),
{
    let start = chrono::DateTime::from_timestamp(start_secs, start_nanos).unwrap();
    let end = chrono::DateTime::from_timestamp(end_secs, end_nanos).unwrap();
    (end - start).num_seconds()
}

/// `TimeDelta::num_milliseconds` of the difference of two chrono instants: the
/// whole milliseconds from the first to the second, rounded toward zero.
#[verifier::external_body]
fn whole_millis(start_secs: i64, start_nanos: u32, end_secs: i64, end_nanos: u32) -> (r: i64)
    requires
        is_instant(start_secs, start_nanos),
        is_instant(end_secs, end_nanos),
    ensures
        r == truncated_div(
            total_nanos(end_secs, end_nanos) - total_nanos(start_secs, start_nanos),
            1_000_000,
        ),
{
    let start = chrono::DateTime::from_timestamp(start_secs, start_nanos).unwrap();
    let end = chrono::DateTime::from_timestamp(end_secs, end_nanos).unwrap();
    (end - start).num_milliseconds()
}

/// `DateTime::with_timezone` to `chrono_tz::America::Montreal`, printed with
/// `DateTime::format`. The time zone's rules are compiled into chrono-tz, so the
/// text depends on the instant and the pattern alone; what it is on given values
/// is left to the name `montreal_time`. Only the listed patterns are accepted:
/// printing panics on a malformed one.
#[verifier::external_body]
fn local_text(secs: i64, nanos: u32, pattern: &str) -> (r: String)
    requires
        is_instant(secs, nanos),
        is_local_pattern(pattern@),
    ensures
        r@ == montreal_time(total_nanos(secs, nanos), pattern@),
{
    let instant = chrono::DateTime::from_timestamp(secs, nanos).unwrap();
    instant.with_timezone(&chrono_tz::America::Montreal).format(pattern).to_string()
}

/// An instant on the UTC clock, with nanosecond precision.
#[derive(Clone, Copy, PartialEq, Eq, Structural, Debug)]
pub struct Timestamp {
    secs: i64,
    nanos: u32,
}

impl View for Timestamp {
    type V = int;

    /// Nanoseconds since 1970-01-01 00:00:00 UTC.
    closed spec fn view(&self) -> int {
        total_nanos(self.secs, self.nanos)
    }
}

impl Timestamp {
    #[verifier::type_invariant]
    closed spec fn valid(self) -> bool {
        is_instant(self.secs, self.nanos)
    }

    /// The instant `nanos` nanoseconds past the second `secs` of the Unix clock;
    /// `None` where the calendar does not reach or `nanos` is a second or more.
    pub fn new(secs: i64, nanos: u32) -> (r: Option<Timestamp>)
        ensures
            r is Some <==> is_instant(secs, nanos),
            r matches Some(t) ==> t@ == total_nanos(secs, nanos),
    {
        if MIN_SECS <= secs && secs <= MAX_SECS && nanos < NANOS_PER_SEC {
            Some(Timestamp { secs, nanos })
        } else {
            None
        }
    }

    /// The instant at which the call is made.
    pub fn now() -> (r: Timestamp)
        ensures
            r@ >= 0,
    {
        let (secs, nanos) = clock_reading();
        Timestamp { secs, nanos }
    }

    /// Whole seconds from `start` to `self`, rounded toward zero.
    pub fn seconds_since(self, start: Timestamp) -> (r: i64)
        ensures
            r == truncated_div(self@ - start@, 1_000_000_000),
    {
        proof {
            use_type_invariant(&self);
            use_type_invariant(&start);
        }
        whole_seconds(start.secs, start.nanos, self.secs, self.nanos)
    }

    /// Whole milliseconds from `start` to `self`, rounded toward zero.
    pub fn millis_since(self, start: Timestamp) -> (r: i64)
        ensures
            r == truncated_div(self@ - start@, 1_000_000),
    {
        proof {
            use_type_invariant(&self);
            use_type_invariant(&start);
        }
        whole_millis(start.secs, start.nanos, self.secs, self.nanos)
    }

    /// How the instant reads in Montreal, printed with the given pattern.
    pub fn to_local(self, pattern: &str) -> (r: String)
        requires
            is_local_pattern(pattern@),
        ensures
            r@ == montreal_time(self@, pattern@),
    {
        proof {
            use_type_invariant(&self);
        }
        local_text(self.secs, self.nanos, pattern)
    }
}

} // verus!
