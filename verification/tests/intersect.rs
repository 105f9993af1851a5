use agmd::agmd::Agmd;
use agmd::date::Date;
use agmd::date_range::{current_date, DateFormat, DateRangeFormat};

fn d(y: u16, m: u8, day: u8) -> Date {
    Date::new(y, m, day).unwrap()
}

fn sched(start: Option<Date>, due: Option<Date>) -> Agmd {
    Agmd { start, due }
}

#[test]
fn single_inside_window() {
    let today = d(2025, 6, 15);
    let s = sched(Some(d(2025, 6, 10)), Some(d(2025, 6, 20)));
    let q = DateRangeFormat::Single(DateFormat::Relative(0));
    assert!(q.intersects_on(&s, &today));
}

#[test]
fn single_past_window() {
    let today = d(2025, 6, 15);
    let s = sched(Some(d(2025, 6, 10)), Some(d(2025, 6, 20)));
    let q = DateRangeFormat::Single(DateFormat::Relative(10));
    assert!(!q.intersects_on(&s, &today));
}

#[test]
fn open_lower_range_before_window() {
    let today = d(2025, 6, 15);
    let s = sched(Some(d(2025, 6, 10)), Some(d(2025, 6, 20)));
    let q = DateRangeFormat::Range(None, Some(DateFormat::Relative(-10)));
    assert!(!q.intersects_on(&s, &today));
}

#[test]
fn single_at_boundaries() {
    let today = d(2025, 6, 15);
    let s = sched(Some(d(2025, 6, 10)), Some(d(2025, 6, 20)));
    assert!(DateRangeFormat::Single(DateFormat::Relative(-5)).intersects_on(&s, &today));
    assert!(DateRangeFormat::Single(DateFormat::Relative(5)).intersects_on(&s, &today));
    assert!(!DateRangeFormat::Single(DateFormat::Relative(-6)).intersects_on(&s, &today));
    assert!(!DateRangeFormat::Single(DateFormat::Relative(6)).intersects_on(&s, &today));
}

#[test]
fn fully_open_schedule_intersects_everything() {
    let today = d(2025, 6, 15);
    let s = sched(None, None);
    assert!(DateRangeFormat::Single(DateFormat::Relative(123)).intersects_on(&s, &today));
    assert!(DateRangeFormat::Single(DateFormat::Relative(-99)).intersects_on(&s, &today));
    assert!(
        DateRangeFormat::Range(Some(DateFormat::Relative(3)), Some(DateFormat::Relative(4)))
            .intersects_on(&s, &today)
    );
}

#[test]
fn fully_open_query_intersects_everything() {
    let today = d(2025, 6, 15);
    let q = DateRangeFormat::Range(None, None);
    assert!(q.intersects_on(&sched(Some(d(1999, 1, 1)), Some(d(1999, 1, 2))), &today));
    assert!(q.intersects_on(&sched(None, Some(d(1999, 1, 2))), &today));
    assert!(q.intersects_on(&sched(Some(d(2999, 1, 1)), None), &today));
    assert!(q.intersects_on(&sched(None, None), &today));
}

#[test]
fn half_open_combinations() {
    let today = d(2025, 6, 15);
    // schedule bounded only below, query bounded only above
    let s = sched(Some(d(2025, 7, 1)), None);
    let q = DateRangeFormat::Range(None, Some(DateFormat::Relative(30)));
    assert!(q.intersects_on(&s, &today));
    let q_short = DateRangeFormat::Range(None, Some(DateFormat::Relative(10)));
    assert!(!q_short.intersects_on(&s, &today));
    // schedule bounded only above, query bounded only below
    let s2 = sched(None, Some(d(2025, 6, 1)));
    let q2 = DateRangeFormat::Range(Some(DateFormat::Relative(-30)), None);
    assert!(q2.intersects_on(&s2, &today));
    let q2_late = DateRangeFormat::Range(Some(DateFormat::Relative(-10)), None);
    assert!(!q2_late.intersects_on(&s2, &today));
}

#[test]
fn point_range_matches_single() {
    let today = d(2025, 6, 15);
    let scheds = [
        sched(Some(d(2025, 6, 10)), Some(d(2025, 6, 20))),
        sched(None, Some(d(2025, 6, 12))),
        sched(Some(d(2025, 6, 18)), None),
        sched(None, None),
    ];
    for o in [-10i64, -3, 0, 3, 10] {
        for s in &scheds {
            let single = DateRangeFormat::Single(DateFormat::Relative(o));
            let point = DateRangeFormat::Range(
                Some(DateFormat::Relative(o)),
                Some(DateFormat::Relative(o)),
            );
            assert_eq!(single.intersects_on(s, &today), point.intersects_on(s, &today));
        }
    }
}

#[test]
fn reversed_range_is_tolerated() {
    // d1 > d2: decided structurally by the bound-pair comparisons, no panic
    let today = d(2025, 6, 15);
    let s = sched(Some(d(2025, 6, 10)), Some(d(2025, 6, 20)));
    let q = DateRangeFormat::Range(Some(DateFormat::Relative(10)), Some(DateFormat::Relative(-10)));
    // upper bound (-10) precedes the schedule start, so no intersection
    assert!(!q.intersects_on(&s, &today));
    let q2 = DateRangeFormat::Range(Some(DateFormat::Relative(3)), Some(DateFormat::Relative(-3)));
    // both pair comparisons hold even though the range is reversed
    assert!(q2.intersects_on(&s, &today));
}

#[test]
fn reversed_schedule_is_an_empty_window() {
    let today = d(2025, 6, 15);
    let s = sched(Some(d(2025, 6, 20)), Some(d(2025, 6, 10)));
    for o in [-10i64, -5, 0, 5, 10] {
        assert!(!DateRangeFormat::Single(DateFormat::Relative(o)).intersects_on(&s, &today));
    }
}

#[test]
fn current_date_is_available() {
    assert!(current_date().is_some());
}

#[test]
fn filter_uses_the_clock() {
    // a fully open schedule is active whatever day the clock shows
    let q = DateRangeFormat::Single(DateFormat::Relative(0));
    assert!(q.filter_agmd_intersection(&sched(None, None)));
    // an interval that ended long before any plausible clock value
    let past = sched(Some(d(1970, 1, 1)), Some(d(1970, 1, 2)));
    assert!(!q.filter_agmd_intersection(&past));
}
