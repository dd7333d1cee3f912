use loki::models::base_model::{board_time, debark_time, flow, BadStopTime, FlowDirection};
use loki::dates::Date;
use loki::laxatips_daily_data::time::{
    parse_duration, Calendar as DailyCalendar, PositiveDuration, SecondsSinceTimezonedDayStart,
};
use loki::laxatips_data::calendar::Calendar;
use loki::laxatips_data::time as data_time;

#[test]
fn positive_duration_from_hms() {
    assert_eq!(PositiveDuration::from_hms(1, 2, 3).total_seconds(), 3723);
    assert_eq!(PositiveDuration::zero().total_seconds(), 0);
    assert_eq!(data_time::PositiveDuration::from_hms(24, 0, 0).total_seconds(), 86400);
}

#[test]
fn seconds_since_timezoned_day_start_bounds() {
    assert!(SecondsSinceTimezonedDayStart::from_seconds(172800).is_some());
    assert!(SecondsSinceTimezonedDayStart::from_seconds(-172800).is_some());
    assert!(SecondsSinceTimezonedDayStart::from_seconds(172801).is_none());
    assert!(SecondsSinceTimezonedDayStart::from_seconds(-172801).is_none());
    assert!(SecondsSinceTimezonedDayStart::from_seconds_i64(1 << 40).is_none());
    assert_eq!(
        SecondsSinceTimezonedDayStart::from_seconds_i64(-3600),
        SecondsSinceTimezonedDayStart::from_seconds(-3600)
    );
    assert_eq!(SecondsSinceTimezonedDayStart::max(), SecondsSinceTimezonedDayStart::from_seconds(172800).unwrap());
    // `min` is the earliest time of a day: -48:00:00
    assert_eq!(SecondsSinceTimezonedDayStart::min(), SecondsSinceTimezonedDayStart::from_seconds(-172800).unwrap());
    assert_eq!(SecondsSinceTimezonedDayStart::zero(), SecondsSinceTimezonedDayStart::from_seconds(0).unwrap());
}

#[test]
fn duration_since() {
    let start = data_time::SecondsSinceDatasetUTCStart::zero();
    let later = start;
    assert_eq!(later.duration_since(&start).map(|d| d.total_seconds()), Some(0));
}

#[test]
fn parse_durations() {
    assert_eq!(parse_duration("00:02:00").map(|d| d.total_seconds()), Some(120));
    assert_eq!(parse_duration("24:00:00").map(|d| d.total_seconds()), Some(86400));
    assert_eq!(parse_duration("+1:2:3").map(|d| d.total_seconds()), Some(3723));
    assert!(parse_duration("00:60:00").is_none());
    assert!(parse_duration("00:00:60").is_none());
    assert!(parse_duration("00:02").is_none());
    assert!(parse_duration("00:02:00:00").is_none());
    assert!(parse_duration("aa:02:00").is_none());
    assert!(parse_duration("::").is_none());
    assert!(parse_duration("").is_none());
    assert!(parse_duration("1193047:00:00").is_none());
    assert_eq!(parse_duration("1193046:28:15").map(|d| d.total_seconds()), Some(4294967295));
}

#[test]
fn calendar_days() {
    // 2020-01-01 is day 737425 from the common era
    let first = Date { days_from_ce: 737425 };
    let last = Date { days_from_ce: 737427 };
    let calendar = Calendar::new(first, last);
    assert_eq!(calendar.nb_of_days(), 3);
    let mut days = calendar.days();
    let mut count = 0;
    while let Some(day) = days.next() {
        assert_eq!(calendar.to_naive_date(&day).days_from_ce, 737425 + count);
        count += 1;
    }
    assert_eq!(count, 3);
    assert!(calendar.contains(&Date { days_from_ce: 737426 }));
    assert!(!calendar.contains(&Date { days_from_ce: 737428 }));
    assert!(calendar.date_to_days_since_start(&Date { days_from_ce: 737424 }).is_none());
    let day = calendar.date_to_days_since_start(&Date { days_from_ce: 737427 }).unwrap();
    assert_eq!(calendar.to_naive_date(&day), last);
    // midnight on 2020-01-01 is 1577836800 seconds after 1970-01-01
    let start = data_time::SecondsSinceDatasetUTCStart::zero();
    assert_eq!(calendar.to_naive_datetime(&start), 1577836800);
}

#[test]
fn stop_time_flows_and_times() {
    assert_eq!(flow(0, 0), Ok(FlowDirection::BoardAndDebark));
    assert_eq!(flow(1, 0), Ok(FlowDirection::DebarkOnly));
    assert_eq!(flow(0, 1), Ok(FlowDirection::BoardOnly));
    assert_eq!(flow(1, 1), Ok(FlowDirection::NoBoardDebark));
    assert_eq!(flow(2, 0), Err(BadStopTime::PickupType));
    assert_eq!(flow(0, 3), Err(BadStopTime::DropOffType));
    assert_eq!(board_time(3600, 60), SecondsSinceTimezonedDayStart::from_seconds(3540));
    assert_eq!(board_time(30, 60), SecondsSinceTimezonedDayStart::from_seconds(-30));
    assert!(board_time(u32::MAX, 0).is_none());
    assert!(board_time(200000, 0).is_none());
    assert_eq!(debark_time(3600, 60), SecondsSinceTimezonedDayStart::from_seconds(3660));
    assert!(debark_time(172800, 1).is_none());
}

#[test]
fn decompose_in_a_timezone() {
    let calendar = Calendar::new(Date { days_from_ce: 737425 }, Date { days_from_ce: 737426 });
    // midnight UTC on 2020-01-01 is 01:00 in Paris, an hour after the local midnight
    let start = data_time::SecondsSinceDatasetUTCStart::zero();
    let (day, time) = start.decompose(&calendar, "Europe/Paris");
    assert_eq!(calendar.to_naive_date(&day).days_from_ce, 737425);
    assert!(time > data_time::SecondsSinceTimezonedDayStart::zero());
    // the day before the local date is not a day of the calendar
    assert!(start.decompose_with_days_offset(1, &calendar, "Europe/Paris").is_none());
    // in New York it is still 2019-12-31, before the calendar
    assert!(start.decompose_with_days_offset(0, &calendar, "America/New_York").is_none());
    // in London the local midnight is the instant itself
    let (_, london_time) = start.decompose(&calendar, "Europe/London");
    assert_eq!(london_time, data_time::SecondsSinceTimezonedDayStart::zero());
    assert!(start.decompose_with_days_offset(0, &calendar, "Not/A_Zone").is_none());
}

#[test]
fn durations_and_times_add_up() {
    let minute = PositiveDuration::from_hms(0, 1, 0);
    let other = PositiveDuration::from_hms(0, 2, 3);
    assert_eq!((minute + other).total_seconds(), 183);
    assert_eq!((other * 3).total_seconds(), 369);
    let hour = data_time::PositiveDuration::from_hms(1, 0, 0);
    assert_eq!((hour + hour).total_seconds(), 7200);
    assert_eq!((hour * 2).total_seconds(), 7200);
    let start = data_time::SecondsSinceDatasetUTCStart::zero();
    let later = start + hour;
    assert_eq!(later.duration_since(&start).map(|d| d.total_seconds()), Some(3600));
    assert!(start.duration_since(&later).is_none());
}

#[test]
fn calendar_datetimes_as_text() {
    let first = Date { days_from_ce: 737425 };
    let calendar = Calendar::new(first, Date { days_from_ce: 737430 });
    let seconds = data_time::SecondsSinceDatasetUTCStart::zero() + data_time::PositiveDuration::from_hms(1, 1, 1);
    assert_eq!(calendar.to_string(&seconds), "20200101T010101");
    assert_eq!(calendar.to_pretty_string(&seconds), "01:01:01 01-Jan-20");
    let later = seconds + data_time::PositiveDuration::from_hms(24 * 31, 0, 0);
    assert_eq!(calendar.to_pretty_string(&later), "01:01:01 01-Feb-20");
    let daily = DailyCalendar::new(first, Date { days_from_ce: 737430 });
    let day = daily.date_to_days_since_start(&Date { days_from_ce: 737426 }).unwrap();
    let time = SecondsSinceTimezonedDayStart::from_seconds(3600).unwrap();
    let composed = daily.compose(&day, &time, "UTC");
    assert_eq!(daily.to_string(&composed), "20200102T010000");
    assert_eq!(daily.to_pretty_string(&composed), "01:00:00 02-Jan-20");
    // a datetime of the calendar comes back from its time since the first datetime
    let datetime = daily.to_naive_datetime(&composed);
    assert_eq!(daily.from_naive_datetime(datetime), Some(composed));
    assert_eq!(daily.to_naive_datetime(&daily.from_naive_datetime(datetime).unwrap()), datetime);
}
