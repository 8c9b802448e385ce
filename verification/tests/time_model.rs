use chrono::{NaiveDate, NaiveDateTime, TimeDelta};
use load_scheduler::data_model::time::{Milliseconds, TimeUnit, Timespan};
use load_scheduler::error::ErrorKind;

fn naive(year: i32, month: u32, day: u32, hour: u32, min: u32, sec: u32, milli: u32) -> NaiveDateTime {
    NaiveDate::from_ymd_opt(year, month, day)
        .unwrap()
        .and_hms_milli_opt(hour, min, sec, milli)
        .unwrap()
}

#[test]
fn timespan_new_accepts_start_before_end() {
    let span = Timespan::new(TimeUnit(0), TimeUnit(100)).unwrap();
    assert_eq!(span.start, TimeUnit(0));
    assert_eq!(span.end, TimeUnit(100));
    assert!(span.is_valid());
}

#[test]
fn timespan_new_rejects_zero_length() {
    assert_eq!(Timespan::new(TimeUnit(7), TimeUnit(7)), Err(ErrorKind::InvalidSpan));
}

#[test]
fn timespan_new_rejects_start_after_end() {
    assert_eq!(Timespan::new(TimeUnit(8), TimeUnit(7)), Err(ErrorKind::InvalidSpan));
    assert_eq!(Timespan::new(TimeUnit(i64::MAX), TimeUnit(i64::MIN)), Err(ErrorKind::InvalidSpan));
}

#[test]
fn timespan_literal_can_be_checked() {
    assert!(!Timespan { start: TimeUnit(5), end: TimeUnit(1) }.is_valid());
    assert!(Timespan { start: TimeUnit(-5), end: TimeUnit(1) }.is_valid());
}

#[test]
fn timespan_duration_is_end_minus_start() {
    let span = Timespan::new(TimeUnit(-250), TimeUnit(1_000)).unwrap();
    assert_eq!(span.duration(), Ok(Milliseconds(1_250)));
}

#[test]
fn timespan_duration_overflow_is_reported() {
    let span = Timespan::new(TimeUnit(i64::MIN), TimeUnit(i64::MAX)).unwrap();
    assert_eq!(span.duration(), Err(ErrorKind::DurationOverflow));
    let widest = Timespan::new(TimeUnit(-1), TimeUnit(i64::MAX)).unwrap();
    assert_eq!(widest.duration(), Err(ErrorKind::DurationOverflow));
    let fits = Timespan::new(TimeUnit(0), TimeUnit(i64::MAX)).unwrap();
    assert_eq!(fits.duration(), Ok(Milliseconds(i64::MAX)));
}

#[test]
fn timespan_is_half_open() {
    let span = Timespan::new(TimeUnit(10), TimeUnit(20)).unwrap();
    assert!(span.contains(TimeUnit(10)));
    assert!(span.contains(TimeUnit(19)));
    assert!(!span.contains(TimeUnit(20)));
    assert!(!span.contains(TimeUnit(9)));
}

#[test]
fn timespans_that_touch_are_disjoint() {
    let a = Timespan::new(TimeUnit(0), TimeUnit(10)).unwrap();
    let b = Timespan::new(TimeUnit(10), TimeUnit(20)).unwrap();
    let c = Timespan::new(TimeUnit(9), TimeUnit(20)).unwrap();
    assert!(a.is_before(&b));
    assert!(!b.is_before(&a));
    assert!(!a.is_before(&c));
}

#[test]
fn timespan_lies_within_bounds_inclusive() {
    let span = Timespan::new(TimeUnit(10), TimeUnit(20)).unwrap();
    assert!(span.lies_within(TimeUnit(10), TimeUnit(20)));
    assert!(span.lies_within(TimeUnit(0), TimeUnit(30)));
    assert!(!span.lies_within(TimeUnit(11), TimeUnit(20)));
    assert!(!span.lies_within(TimeUnit(10), TimeUnit(19)));
}

#[test]
fn timespan_at_least_compares_length() {
    let span = Timespan::new(TimeUnit(10), TimeUnit(20)).unwrap();
    assert!(span.at_least(Milliseconds(10)));
    assert!(span.at_least(Milliseconds(-3)));
    assert!(!span.at_least(Milliseconds(11)));
    let widest = Timespan::new(TimeUnit(i64::MIN), TimeUnit(i64::MAX)).unwrap();
    assert!(widest.at_least(Milliseconds(i64::MAX)));
}

#[test]
fn timespans_order_by_start_then_end() {
    let a = Timespan::new(TimeUnit(0), TimeUnit(50)).unwrap();
    let b = Timespan::new(TimeUnit(1), TimeUnit(2)).unwrap();
    let c = Timespan::new(TimeUnit(0), TimeUnit(60)).unwrap();
    assert!(a < b);
    assert!(a < c);
    assert_eq!(a, Timespan::new(TimeUnit(0), TimeUnit(50)).unwrap());
}

#[test]
fn milliseconds_from_raw_count() {
    let length: Milliseconds = 3600.into();
    assert_eq!(length, Milliseconds::from(3600));
    assert_eq!(length.as_millis(), 3600);
    assert_ne!(length, Milliseconds::from(3601));
    let negative: Milliseconds = (-1).into();
    assert_eq!(negative.as_millis(), -1);
    assert!(!negative.is_non_negative());
    assert!(Milliseconds(0).is_non_negative());
}

#[test]
fn time_unit_from_raw_count() {
    let t: TimeUnit = 42.into();
    assert_eq!(t, TimeUnit::from_millis(42));
    assert_eq!(t.as_millis(), 42);
}

#[test]
fn milliseconds_add() {
    assert_eq!(Milliseconds(1_500).checked_add(Milliseconds(2_500)), Ok(Milliseconds(4_000)));
    assert_eq!(Milliseconds(5).checked_add(Milliseconds(-7)), Ok(Milliseconds(-2)));
}

#[test]
fn milliseconds_add_overflow_fails() {
    assert_eq!(
        Milliseconds(i64::MAX).checked_add(Milliseconds(1)),
        Err(ErrorKind::DurationOverflow)
    );
    assert_eq!(
        Milliseconds(i64::MIN).checked_add(Milliseconds(-1)),
        Err(ErrorKind::DurationOverflow)
    );
}

#[test]
fn milliseconds_scale() {
    assert_eq!(Milliseconds(1_000).checked_scale(60), Ok(Milliseconds(60_000)));
    assert_eq!(Milliseconds(250).checked_scale(-4), Ok(Milliseconds(-1_000)));
    assert_eq!(Milliseconds(250).checked_scale(0), Ok(Milliseconds(0)));
}

#[test]
fn milliseconds_scale_overflow_fails() {
    assert_eq!(
        Milliseconds(i64::MAX / 2 + 1).checked_scale(2),
        Err(ErrorKind::DurationOverflow)
    );
    assert_eq!(Milliseconds(i64::MIN).checked_scale(-1), Err(ErrorKind::DurationOverflow));
}

#[test]
fn time_unit_add_length() {
    assert_eq!(TimeUnit(1_000).checked_add(Milliseconds(234)), Ok(TimeUnit(1_234)));
    assert_eq!(TimeUnit(i64::MAX).checked_add(Milliseconds(1)), Err(ErrorKind::DurationOverflow));
}

#[test]
fn time_unit_since() {
    assert_eq!(TimeUnit(1_234).since(TimeUnit(1_000)), Ok(Milliseconds(234)));
    assert_eq!(TimeUnit(1_000).since(TimeUnit(1_234)), Ok(Milliseconds(-234)));
    assert_eq!(TimeUnit(i64::MIN).since(TimeUnit(1)), Err(ErrorKind::DurationOverflow));
}

#[test]
fn milliseconds_to_duration() {
    assert_eq!(Milliseconds(3_600).to_duration(), Ok(TimeDelta::milliseconds(3_600)));
    assert_eq!(Milliseconds(-1).to_duration(), Ok(TimeDelta::milliseconds(-1)));
    assert_eq!(Milliseconds(i64::MAX).to_duration(), Ok(TimeDelta::MAX));
}

#[test]
fn milliseconds_to_duration_refuses_smallest_count() {
    assert_eq!(Milliseconds(i64::MIN).to_duration(), Err(ErrorKind::DurationOverflow));
    assert!(Milliseconds(i64::MIN + 1).to_duration().is_ok());
}

#[test]
fn milliseconds_from_duration() {
    assert_eq!(Milliseconds::from(TimeDelta::seconds(2)), Milliseconds(2_000));
    assert_eq!(Milliseconds::from(TimeDelta::microseconds(1_999)), Milliseconds(1));
    assert_eq!(Milliseconds::from(TimeDelta::milliseconds(-5)), Milliseconds(-5));
}

#[test]
fn milliseconds_survive_the_way_through_duration() {
    for count in [0i64, 1, -1, 999, 1_000, -1_001, 86_400_000, i64::MAX, i64::MIN + 1] {
        let there = Milliseconds(count).to_duration().unwrap();
        assert_eq!(Milliseconds::from(there), Milliseconds(count));
    }
}

#[test]
fn time_unit_from_naive_counts_from_the_epoch() {
    assert_eq!(TimeUnit::from_naive_utc(&naive(1970, 1, 1, 0, 0, 0, 0)), TimeUnit(0));
    assert_eq!(TimeUnit::from_naive_utc(&naive(1970, 1, 1, 0, 0, 1, 444)), TimeUnit(1_444));
    assert_eq!(
        TimeUnit::from_naive_utc(&naive(2001, 9, 9, 1, 46, 40, 555)),
        TimeUnit(1_000_000_000_555)
    );
    assert_eq!(TimeUnit::from_naive_utc(&naive(1969, 12, 31, 23, 59, 59, 0)), TimeUnit(-1_000));
}

#[test]
fn timespan_from_naive() {
    let span =
        Timespan::new_from_naive(naive(2024, 1, 1, 0, 0, 0, 0), naive(2024, 1, 2, 0, 0, 0, 0))
            .unwrap();
    assert_eq!(span.start, TimeUnit(1_704_067_200_000));
    assert_eq!(span.end, TimeUnit(1_704_153_600_000));
    assert_eq!(span.duration(), Ok(Milliseconds(86_400_000)));
}

#[test]
fn timespan_from_naive_rejects_reversed_and_empty() {
    let early = naive(2024, 1, 1, 0, 0, 0, 0);
    let late = naive(2024, 1, 2, 0, 0, 0, 0);
    assert_eq!(Timespan::new_from_naive(late, early), Err(ErrorKind::InvalidSpan));
    assert_eq!(Timespan::new_from_naive(early, early), Err(ErrorKind::InvalidSpan));
}

#[test]
fn error_messages() {
    assert_eq!(ErrorKind::NoTasksToSchedule.message(), "No tasks to schedule");
    assert_eq!(ErrorKind::InvalidSpan.message(), "timespan start must be before its end");
    assert_eq!(ErrorKind::DurationOverflow.message(), "time arithmetic overflowed");
    assert_eq!(ErrorKind::MalformedGraph.message(), "capacity graph is malformed");
    assert_eq!(ErrorKind::InsufficientCapacity.message(), "insufficient capacity");
    assert_eq!(ErrorKind::NoFeasibleSlot.message(), "no feasible slot");
}
