use loki::dates::Date;
use loki::models::real_time_disruption::time_periods::{DateIter, MAX_DATE_DAYS};
use loki::models::real_time_disruption::{
    intersection, DateTimePeriodIterator, TimePeriod, TimePeriodError, TimePeriods,
};

fn dates(mut iter: DateIter) -> Vec<i32> {
    let mut result = Vec::new();
    while let Some(date) = iter.next() {
        result.push(date.days_from_ce);
    }
    result
}

#[test]
fn periods_are_half_open() {
    assert_eq!(TimePeriod::new(10, 5).err(), Some(TimePeriodError::StartAfterEnd(10, 5)));
    assert_eq!(TimePeriod::new(5, 5).err(), Some(TimePeriodError::StartAfterEnd(5, 5)));
    let period = TimePeriod::new(0, 100).unwrap();
    assert_eq!((period.start(), period.end()), (0, 100));
    assert!(period.contains(&0));
    assert!(period.contains(&99));
    assert!(!period.contains(&100));
    assert!(!period.contains(&-1));
    let later = TimePeriod::new(50, 150).unwrap();
    let after = TimePeriod::new(100, 200).unwrap();
    assert!(period.intersects(&later) && later.intersects(&period));
    assert!(!period.intersects(&after) && !after.intersects(&period));
    let both = intersection(&period, &later).unwrap();
    assert_eq!((both.start(), both.end()), (50, 100));
    assert!(intersection(&period, &after).is_none());
}

#[test]
fn dates_possibly_concerned_by_periods() {
    // 2020-01-01 00:00 to 2020-01-02 00:00, UTC
    let day = TimePeriod::new(1577836800, 1577923200).unwrap();
    // three days before and after
    assert_eq!(dates(day.dates_possibly_concerned()), (737422..=737429).collect::<Vec<i32>>());
    let later = TimePeriod::new(1578009600, 1578013200).unwrap();
    let periods = [later, day];
    let set = TimePeriods::new(&periods).unwrap();
    assert_eq!(dates(set.dates_possibly_concerned()), (737422..=737430).collect::<Vec<i32>>());
    assert!(set.contains(&1577836800));
    assert!(!set.contains(&1577923200));
    assert!(set.intersects(&TimePeriod::new(1578010000, 1578020000).unwrap()));
    assert!(!set.intersects(&TimePeriod::new(1577923200, 1578009600).unwrap()));
    assert!(TimePeriods::new(&[]).is_none());
}

#[test]
fn dates_and_datetimes_one_day_apart() {
    assert_eq!(
        dates(DateIter::new(Date { days_from_ce: 5 }, Date { days_from_ce: 7 })),
        vec![5, 6, 7]
    );
    assert!(dates(DateIter::new(Date { days_from_ce: 7 }, Date { days_from_ce: 5 })).is_empty());
    // the last date that a datetime can have has no next date
    let last = Date { days_from_ce: MAX_DATE_DAYS };
    assert_eq!(dates(DateIter::new(last, last)), vec![MAX_DATE_DAYS]);
    let mut datetimes = DateTimePeriodIterator::new(&TimePeriod::new(0, 172800).unwrap());
    assert_eq!(datetimes.next(), Some(0));
    assert_eq!(datetimes.next(), Some(86400));
    assert_eq!(datetimes.next(), Some(172800));
    assert_eq!(datetimes.next(), None);
}
