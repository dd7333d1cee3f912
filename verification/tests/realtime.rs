use loki::laxatips_data::timetables::iters::{PositionsIter, VehiclesIter};
use loki::laxatips_data::timetables::timetables_data::{Position, Timetable};
use loki::realtime::rt_model::{clamp, clamp_date, intersection, DateTimePeriod, DateTimePeriodIterator};

#[test]
fn intersection_starts_at_the_later_start() {
    let a = DateTimePeriod { start: 10, end: 20 };
    let b = DateTimePeriod { start: 15, end: 30 };
    assert_eq!(intersection(&a, &b), Some(DateTimePeriod { start: 15, end: 20 }));
    assert_eq!(intersection(&b, &a), Some(DateTimePeriod { start: 15, end: 20 }));
    let c = DateTimePeriod { start: 30, end: 40 };
    assert_eq!(intersection(&a, &c), None);
    let d = DateTimePeriod { start: 5, end: 5 };
    assert_eq!(intersection(&a, &d), None);
    let e = DateTimePeriod { start: 12, end: 18 };
    assert_eq!(intersection(&a, &e), Some(DateTimePeriod { start: 12, end: 18 }));
}

#[test]
fn clamp_into_range() {
    assert_eq!(clamp(5, 0, 10), 5);
    assert_eq!(clamp(-5, 0, 10), 0);
    assert_eq!(clamp(15, 0, 10), 10);
    let clamper = DateTimePeriod { start: 10, end: 20 };
    assert_eq!(
        clamp_date(&DateTimePeriod { start: 0, end: 15 }, &clamper),
        Some(DateTimePeriod { start: 10, end: 15 })
    );
    assert_eq!(
        clamp_date(&DateTimePeriod { start: 12, end: 50 }, &clamper),
        Some(DateTimePeriod { start: 12, end: 20 })
    );
    assert_eq!(clamp_date(&DateTimePeriod { start: 30, end: 25 }, &clamper), Some(DateTimePeriod { start: 20, end: 20 }));
    assert_eq!(clamp_date(&DateTimePeriod { start: 18, end: 12 }, &clamper), None);
}

#[test]
fn period_days() {
    let period = DateTimePeriod { start: 0, end: 2 * 86400 };
    let mut iter = DateTimePeriodIterator::new(&period);
    assert_eq!(iter.next(), Some(0));
    assert_eq!(iter.next(), Some(86400));
    assert_eq!(iter.next(), Some(2 * 86400));
    assert_eq!(iter.next(), None);
}

#[test]
fn positions_and_vehicles_of_a_timetable() {
    let timetable = Timetable { idx: 3 };
    let mut positions = PositionsIter::new(timetable, 0..2);
    assert_eq!(positions.next(), Some(Position { timetable, idx: 0 }));
    assert_eq!(positions.next(), Some(Position { timetable, idx: 1 }));
    assert_eq!(positions.next(), None);
    let mut vehicles = VehiclesIter::new(timetable, 1..2);
    assert_eq!(vehicles.next().map(|v| v.idx), Some(1));
    assert!(vehicles.next().is_none());
    let upstream = Position { timetable, idx: 0 };
    let downstream = Position { timetable, idx: 4 };
    assert_eq!(upstream.is_upstream(&downstream), Some(true));
    assert_eq!(downstream.is_upstream(&upstream), Some(false));
    assert_eq!(upstream.is_upstream(&Position { timetable: Timetable { idx: 4 }, idx: 1 }), None);
    assert_eq!(downstream.idx_in_timetable(), 4);
}
