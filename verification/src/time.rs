//! Points in time and spans of time, as plain numbers of nanoseconds.
use vstd::prelude::*;

verus! {

/// A span of time.
#[derive(Clone, Copy, Debug, PartialEq, Eq, PartialOrd, Ord, Structural)]
pub struct Duration {
    pub nanos: u128,
}

/// A reading of a monotonic clock: the time since that clock was started.
#[derive(Clone, Copy, Debug, PartialEq, Eq, PartialOrd, Ord, Structural)]
pub struct Instant {
    pub nanos: u128,
}

impl Duration {
    pub fn from_secs(secs: u64) -> (r: Duration)
        ensures
            r.nanos == secs * 1_000_000_000,
    {
        Duration { nanos: secs as u128 * 1_000_000_000 }
    }

    pub fn from_millis(millis: u64) -> (r: Duration)
        ensures
            r.nanos == millis * 1_000_000,
    {
        Duration { nanos: millis as u128 * 1_000_000 }
    }

    /// No time at all.
    pub fn zero() -> (r: Duration)
        ensures
            r.nanos == 0,
    {
        Duration { nanos: 0 }
    }

    /// The two spans one after the other, as far as the number goes.
    pub open spec fn spec_plus(self, other: Duration) -> Duration {
        if self.nanos + other.nanos <= u128::MAX {
            Duration { nanos: (self.nanos + other.nanos) as u128 }
        } else {
            Duration { nanos: u128::MAX }
        }
    }

    pub fn plus(&self, other: Duration) -> (r: Duration)
        ensures
            r == self.spec_plus(other),
    {
        if self.nanos <= u128::MAX - other.nanos {
            Duration { nanos: self.nanos + other.nanos }
        } else {
            Duration { nanos: u128::MAX }
        }
    }

    /// Whole seconds, rounded down.
    pub fn as_secs(&self) -> (r: u128)
        ensures
            r == self.nanos / 1_000_000_000,
    {
        self.nanos / 1_000_000_000
    }
}

impl Instant {
    /// The time from `earlier` to `self`; nothing if `earlier` lies later.
    pub open spec fn spec_since(self, earlier: Instant) -> Duration {
        if self.nanos >= earlier.nanos {
            Duration { nanos: (self.nanos - earlier.nanos) as u128 }
        } else {
            Duration { nanos: 0 }
        }
    }

    pub fn since(&self, earlier: Instant) -> (r: Duration)
        ensures
            r == self.spec_since(earlier),
    {
        if self.nanos >= earlier.nanos {
            Duration { nanos: self.nanos - earlier.nanos }
        } else {
            Duration { nanos: 0 }
        }
    }
}

/// How many nanoseconds a duration of the standard library stays below: it is made of
/// 64-bit whole seconds and less than a second more.
pub open spec fn duration_bound() -> int {
    (u64::MAX + 1) * 1_000_000_000
}

/// The monotonic clock reading of the standard library.
#[verifier::external_type_specification]
#[verifier::external_body]
pub struct ExStdInstant(std::time::Instant);

/// `std::time::Instant::now`. Nothing is claimed of the reading.
#[verifier::external_body]
fn std_instant_now() -> (r: std::time::Instant)
{
    std::time::Instant::now()
}

/// `std::time::Instant::elapsed`, in nanoseconds. Of the time that has passed nothing is
/// claimed but that a duration holds it.
#[verifier::external_body]
fn std_instant_elapsed(origin: &std::time::Instant) -> (r: u128)
    ensures
        r < duration_bound(),
{
    origin.elapsed().as_nanos()
}

/// `std::time::SystemTime::now` as the time since the Unix epoch, in nanoseconds; zero
/// for a clock that stands before the epoch. Of the reading nothing is claimed but that a
/// duration holds it.
#[verifier::external_body]
fn std_system_time_nanos() -> (r: u128)
    ensures
        r < duration_bound(),
{
    std::time::SystemTime::now().duration_since(std::time::UNIX_EPOCH).unwrap_or_default().as_nanos()
}

/// A monotonic clock that reads zero when it is started.
pub struct Clock {
    origin: std::time::Instant,
}

impl Clock {
    /// A clock that is started now. Nothing is known of when that is.
    pub fn start() -> (r: Clock)
    {
        Clock { origin: std_instant_now() }
    }

    /// The present reading.
    pub fn now(&self) -> (r: Instant)
        ensures
            r.nanos < duration_bound(),
    {
        Instant { nanos: std_instant_elapsed(&self.origin) }
    }
}

/// The wall clock, in nanoseconds since the Unix epoch.
pub fn unix_nanos() -> (r: u128)
    ensures
        r < duration_bound(),
{
    std_system_time_nanos()
}

/// The wall clock, in whole seconds since the Unix epoch. The reading can be any number.
pub fn unix_secs() -> (r: u64)
{
    let reading = Duration { nanos: std_system_time_nanos() };
    let secs: u128 = reading.as_secs();
    assert(secs <= u64::MAX);
    secs as u64
}

/// The time between two readings is what leads from the earlier to the later; backwards there
/// is none.
pub proof fn law_time_between(a: Instant, b: Instant)
    ensures
        a.nanos <= b.nanos ==> a.nanos + b.spec_since(a).nanos == b.nanos,
        a.nanos <= b.nanos ==> a.spec_since(b).nanos == 0,
{
}

/// Spans add up, in either order, as far as the number goes.
pub proof fn law_spans_add_up(a: Duration, b: Duration)
    ensures
        a.nanos + b.nanos <= u128::MAX ==> a.spec_plus(b).nanos == a.nanos + b.nanos,
        a.nanos + b.nanos > u128::MAX ==> a.spec_plus(b).nanos == u128::MAX,
        a.spec_plus(b) == b.spec_plus(a),
{
}

/// A second is a thousand milliseconds, and a millisecond a million nanoseconds; a span has as many
/// whole seconds as fit in it.
pub proof fn law_units_of_time(secs: u64, millis: u64, d: Duration, e: Duration, span: Duration, whole: u128)
    requires
        call_ensures(Duration::from_secs, (secs,), d),
        call_ensures(Duration::from_millis, (millis,), e),
        call_ensures(Duration::as_secs, (&span,), whole),
    ensures
        millis == 1000 * secs ==> d == e,
        e.nanos == 1_000_000 * millis,
        whole * 1_000_000_000 <= span.nanos < (whole + 1) * 1_000_000_000,
{
}

/// The time from one moment to another is what lies between them, and none if the other came first;
/// spans are put together by adding them.
pub proof fn law_time_that_has_passed(a: Instant, b: Instant, d: Duration, x: Duration, y: Duration, z: Duration, none: Duration)
    requires
        call_ensures(Instant::since, (&a, b), d),
        call_ensures(Duration::plus, (&x, y), z),
        call_ensures(Duration::zero, (), none),
    ensures
        a.nanos >= b.nanos ==> d.nanos == a.nanos - b.nanos,
        a.nanos < b.nanos ==> d.nanos == 0,
        x.nanos + y.nanos <= u128::MAX ==> z.nanos == x.nanos + y.nanos,
        none.nanos == 0,
{
}

} // verus!
