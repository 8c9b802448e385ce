use vstd::prelude::*;
use crate::error::ErrorKind;

verus! {

/// A point in time: whole milliseconds since the Unix epoch.
#[derive(Clone, Copy, Debug, PartialEq, Eq, PartialOrd, Ord, Hash, Structural)]
pub struct TimeUnit(pub i64);

/// A length of time in whole milliseconds.
///
/// Any count can be held; a count is a proper duration when it is not
/// negative, see [`Milliseconds::is_duration`].
#[derive(Clone, Copy, Debug, PartialEq, Eq, PartialOrd, Ord, Hash, Structural)]
pub struct Milliseconds(pub i64);

impl View for TimeUnit {
    type V = int;

    open spec fn view(&self) -> int {
        self.0 as int
    }
}

impl View for Milliseconds {
    type V = int;

    open spec fn view(&self) -> int {
        self.0 as int
    }
}

/// Whether a mathematical count of milliseconds can be stored.
pub open spec fn representable(count: int) -> bool {
    i64::MIN <= count <= i64::MAX
}

impl TimeUnit {
    /// The instant that lies `millis` milliseconds after the epoch.
    pub fn from_millis(millis: i64) -> (t: TimeUnit)
        ensures
            t@ == millis,
    {
        TimeUnit(millis)
    }

    /// Milliseconds since the epoch.
    pub fn as_millis(&self) -> (millis: i64)
        ensures
            millis == self@,
    {
        self.0
    }

    /// The instant `length` later, or `DurationOverflow` when that instant
    /// cannot be stored.
    pub fn checked_add(&self, length: Milliseconds) -> (r: Result<TimeUnit, ErrorKind>)
        ensures
            representable(self@ + length@) ==> r is Ok && r->Ok_0@ == self@ + length@,
            !representable(self@ + length@) ==> r == Err::<TimeUnit, ErrorKind>(
                ErrorKind::DurationOverflow,
            ),
    {
        match self.0.checked_add(length.0) {
            Some(sum) => Ok(TimeUnit(sum)),
            None => Err(ErrorKind::DurationOverflow),
        }
    }

    /// The time from `earlier` to this instant, negative when `earlier` is
    /// in fact later; `DurationOverflow` when the difference cannot be stored.
    pub fn since(&self, earlier: TimeUnit) -> (r: Result<Milliseconds, ErrorKind>)
        ensures
            representable(self@ - earlier@) ==> r is Ok && r->Ok_0@ == self@ - earlier@,
            !representable(self@ - earlier@) ==> r == Err::<Milliseconds, ErrorKind>(
                ErrorKind::DurationOverflow,
            ),
    {
        match self.0.checked_sub(earlier.0) {
            Some(difference) => Ok(Milliseconds(difference)),
            None => Err(ErrorKind::DurationOverflow),
        }
    }
}

impl From<i64> for TimeUnit {
    fn from(value: i64) -> (t: TimeUnit) {
        TimeUnit(value)
    }
}

impl vstd::std_specs::convert::FromSpecImpl<i64> for TimeUnit {
    open spec fn obeys_from_spec() -> bool {
        true
    }

    open spec fn from_spec(value: i64) -> TimeUnit {
        TimeUnit(value)
    }
}

impl Milliseconds {
    /// Milliseconds as a plain count.
    pub fn as_millis(&self) -> (millis: i64)
        ensures
            millis == self@,
    {
        self.0
    }

    /// Whether the count is a proper duration, that is, not negative.
    pub open spec fn is_duration(&self) -> bool {
        self@ >= 0
    }

    /// Tests [`Milliseconds::is_duration`].
    pub fn is_non_negative(&self) -> (r: bool)
        ensures
            r == self.is_duration(),
    {
        self.0 >= 0
    }

    /// The sum of two lengths, or `DurationOverflow` when it cannot be
    /// stored.
    pub fn checked_add(&self, other: Milliseconds) -> (r: Result<Milliseconds, ErrorKind>)
        ensures
            representable(self@ + other@) ==> r is Ok && r->Ok_0@ == self@ + other@,
            !representable(self@ + other@) ==> r == Err::<Milliseconds, ErrorKind>(
                ErrorKind::DurationOverflow,
            ),
    {
        match self.0.checked_add(other.0) {
            Some(sum) => Ok(Milliseconds(sum)),
            None => Err(ErrorKind::DurationOverflow),
        }
    }

    /// This length taken `factor` times, or `DurationOverflow` when the
    /// product cannot be stored.
    pub fn checked_scale(&self, factor: i64) -> (r: Result<Milliseconds, ErrorKind>)
        ensures
            representable(self@ * factor) ==> r is Ok && r->Ok_0@ == self@ * factor,
            !representable(self@ * factor) ==> r == Err::<Milliseconds, ErrorKind>(
                ErrorKind::DurationOverflow,
            ),
    {
        match self.0.checked_mul(factor) {
            Some(product) => Ok(Milliseconds(product)),
            None => Err(ErrorKind::DurationOverflow),
        }
    }
}

impl From<i64> for Milliseconds {
    fn from(value: i64) -> (length: Milliseconds) {
        Milliseconds(value)
    }
}

impl vstd::std_specs::convert::FromSpecImpl<i64> for Milliseconds {
    open spec fn obeys_from_spec() -> bool {
        true
    }

    open spec fn from_spec(value: i64) -> Milliseconds {
        Milliseconds(value)
    }
}

/// A half-open interval of time, from `start` up to but excluding `end`.
///
/// A span is valid when it is not empty, that is, when `start` lies before
/// `end`. [`Timespan::new`] builds valid spans only.
#[derive(Clone, Copy, Debug, PartialEq, Eq, PartialOrd, Ord, Hash, Structural)]
pub struct Timespan {
    pub start: TimeUnit,
    pub end: TimeUnit,
}

impl Timespan {
    /// Whether the span is not empty.
    pub open spec fn valid(&self) -> bool {
        self.start@ < self.end@
    }

    /// The mathematical length of the span.
    pub open spec fn length(&self) -> int {
        self.end@ - self.start@
    }

    /// Whether the instant `t` lies in the span.
    pub open spec fn covers(&self, t: TimeUnit) -> bool {
        self.start@ <= t@ < self.end@
    }

    /// Whether the span ends before `other` starts, or just when it does.
    /// Two such spans share no instant.
    pub open spec fn precedes(&self, other: Timespan) -> bool {
        self.end@ <= other.start@
    }

    /// Whether the span lies between the two instants.
    pub open spec fn within(&self, not_before: TimeUnit, not_after: TimeUnit) -> bool {
        not_before@ <= self.start@ && self.end@ <= not_after@
    }

    /// The span from `start` to `end`, or `InvalidSpan` when `start` is not
    /// before `end`.
    pub fn new(start: TimeUnit, end: TimeUnit) -> (r: Result<Timespan, ErrorKind>)
        ensures
            r == Timespan::new_spec(start, end),
    {
        if start.0 < end.0 {
            Ok(Timespan { start, end })
        } else {
            Err(ErrorKind::InvalidSpan)
        }
    }

    /// What [`Timespan::new`] returns.
    pub open spec fn new_spec(start: TimeUnit, end: TimeUnit) -> Result<Timespan, ErrorKind> {
        if start@ < end@ {
            Ok(Timespan { start, end })
        } else {
            Err(ErrorKind::InvalidSpan)
        }
    }

    /// Tests [`Timespan::valid`].
    pub fn is_valid(&self) -> (r: bool)
        ensures
            r == self.valid(),
    {
        self.start.0 < self.end.0
    }

    /// The length of the span, or `DurationOverflow` when it cannot be
    /// stored.
    pub fn duration(&self) -> (r: Result<Milliseconds, ErrorKind>)
        ensures
            representable(self.length()) ==> r is Ok && r->Ok_0@ == self.length(),
            !representable(self.length()) ==> r == Err::<Milliseconds, ErrorKind>(
                ErrorKind::DurationOverflow,
            ),
    {
        self.end.since(self.start)
    }

    /// Tests [`Timespan::covers`].
    pub fn contains(&self, t: TimeUnit) -> (r: bool)
        ensures
            r == self.covers(t),
    {
        self.start.0 <= t.0 && t.0 < self.end.0
    }

    /// Tests [`Timespan::precedes`].
    pub fn is_before(&self, other: &Timespan) -> (r: bool)
        ensures
            r == self.precedes(*other),
    {
        self.end.0 <= other.start.0
    }

    /// Tests [`Timespan::within`].
    pub fn lies_within(&self, not_before: TimeUnit, not_after: TimeUnit) -> (r: bool)
        ensures
            r == self.within(not_before, not_after),
    {
        not_before.0 <= self.start.0 && self.end.0 <= not_after.0
    }

    /// Whether the span is at least `length` long.
    pub fn at_least(&self, length: Milliseconds) -> (r: bool)
        ensures
            r == (self.length() >= length@),
    {
        let difference: i128 = self.end.0 as i128 - self.start.0 as i128;
        difference >= length.0 as i128
    }
}

/// Two spans of which one precedes the other share no instant.
pub proof fn lemma_preceding_spans_are_disjoint(a: Timespan, b: Timespan, t: TimeUnit)
    requires
        a.precedes(b),
    ensures
        !(a.covers(t) && b.covers(t)),
{
}

/// `chrono::NaiveDateTime`, carried through as an opaque value.
#[verifier::external_type_specification]
#[verifier::external_body]
pub struct ExNaiveDateTime(chrono::NaiveDateTime);

/// `chrono::TimeDelta` (also known as `chrono::Duration`), carried through
/// as an opaque value.
#[verifier::external_type_specification]
#[verifier::external_body]
pub struct ExTimeDelta(chrono::TimeDelta);

/// The whole milliseconds from the epoch to a calendar date and time that
/// is read as UTC: what `chrono` reports as `timestamp_millis` once
/// `Utc.from_utc_datetime` has attached the zone.
pub uninterp spec fn naive_utc_millis(moment: chrono::NaiveDateTime) -> i64;

/// The whole milliseconds in a `chrono::TimeDelta`: what its
/// `num_milliseconds` reports.
pub uninterp spec fn delta_millis(delta: chrono::TimeDelta) -> i64;

/// Calls `chrono::TimeZone::from_utc_datetime` for `Utc` and reads the
/// result with `DateTime::timestamp_millis`. Trusted: the result is the
/// count that [`naive_utc_millis`] names. Neither call fails or panics.
#[verifier::external_body]
fn utc_millis_of(moment: &chrono::NaiveDateTime) -> (millis: i64)
    ensures
        millis == naive_utc_millis(*moment),
{
    chrono::TimeZone::from_utc_datetime(&chrono::Utc, moment).timestamp_millis()
}

/// Calls `chrono::TimeDelta::try_milliseconds`. Trusted: it refuses only
/// the smallest `i64`, which lies one below the least `TimeDelta`, and the
/// value it builds holds exactly `millis` milliseconds.
#[verifier::external_body]
fn delta_from_millis(millis: i64) -> (r: Option<chrono::TimeDelta>)
    ensures
        r is Some <==> millis != i64::MIN,
        r is Some ==> delta_millis(r->Some_0) == millis,
{
    chrono::TimeDelta::try_milliseconds(millis)
}

/// Calls `chrono::TimeDelta::num_milliseconds`. Trusted: the result is the
/// count that [`delta_millis`] names.
#[verifier::external_body]
fn millis_of_delta(delta: &chrono::TimeDelta) -> (millis: i64)
    ensures
        millis == delta_millis(*delta),
{
    delta.num_milliseconds()
}

impl TimeUnit {
    /// The instant of a calendar date and time that is read as UTC, cut to
    /// whole milliseconds.
    pub fn from_naive_utc(moment: &chrono::NaiveDateTime) -> (t: TimeUnit)
        ensures
            t@ == naive_utc_millis(*moment),
    {
        TimeUnit(utc_millis_of(moment))
    }
}

impl Milliseconds {
    /// The same length as a `chrono::TimeDelta`, or `DurationOverflow` for
    /// the one count that `chrono` cannot hold, the smallest `i64`.
    pub fn to_duration(&self) -> (r: Result<chrono::TimeDelta, ErrorKind>)
        ensures
            self@ != i64::MIN ==> r is Ok && delta_millis(r->Ok_0) == self@,
            self@ == i64::MIN ==> r is Err && r->Err_0 == ErrorKind::DurationOverflow,
    {
        match delta_from_millis(self.0) {
            Some(delta) => Ok(delta),
            None => Err(ErrorKind::DurationOverflow),
        }
    }
}

impl From<chrono::TimeDelta> for Milliseconds {
    /// The whole milliseconds of `value`; what is finer is cut off.
    fn from(value: chrono::TimeDelta) -> (length: Milliseconds) {
        Milliseconds(millis_of_delta(&value))
    }
}

impl vstd::std_specs::convert::FromSpecImpl<chrono::TimeDelta> for Milliseconds {
    open spec fn obeys_from_spec() -> bool {
        true
    }

    open spec fn from_spec(value: chrono::TimeDelta) -> Milliseconds {
        Milliseconds(delta_millis(value))
    }
}

impl Timespan {
    /// The span between two calendar dates and times that are read as UTC,
    /// or `InvalidSpan` when the first is not before the second once both
    /// are cut to whole milliseconds.
    pub fn new_from_naive(start: chrono::NaiveDateTime, end: chrono::NaiveDateTime) -> (r: Result<
        Timespan,
        ErrorKind,
    >)
        ensures
            r == Timespan::new_spec(
                TimeUnit(naive_utc_millis(start)),
                TimeUnit(naive_utc_millis(end)),
            ),
    {
        Timespan::new(TimeUnit::from_naive_utc(&start), TimeUnit::from_naive_utc(&end))
    }
}

} // verus!
