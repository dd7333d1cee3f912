use loki::laxatips_daily_data::time::SecondsSinceTimezonedDayStart as Time;
use loki::dates::Date;
use loki::laxatips_daily_data::time::Calendar;
use loki::laxatips_daily_data::init::{
    board_debark_timezoned_times_in_day, board_debark_utc_times, timezone_of, try_board_debark_utc_times,
    RouteNetworks, StopTimeTimes,
};
use loki::laxatips_daily_data::transit_data::Stop;
use loki::laxatips_data::time::SecondsSinceTimezonedDayStart;
use loki::laxatips_data::timetables::timetables_data::{
    FlowDirection, Position, TimetableData, Timetables, Vehicle,
};

/// Times of the start of the day, the only ones that can be built from outside the crate
fn zeros(n: usize) -> Vec<SecondsSinceTimezonedDayStart> {
    vec![SecondsSinceTimezonedDayStart::zero(); n]
}

#[test]
fn timetable_positions_and_flows() {
    let stops = vec![
        (Stop { idx: 0 }, FlowDirection::BoardOnly),
        (Stop { idx: 1 }, FlowDirection::BoardAndDebark),
        (Stop { idx: 2 }, FlowDirection::DebarkOnly),
    ];
    let zero = zeros(2);
    let data = TimetableData::new(
        stops,
        vec!["vj1", "vj2"],
        vec![zero.clone(), zero.clone(), zero.clone()],
        vec![zero.clone(), zero.clone(), zero.clone()],
        vec![(zero[0], zero[1]); 3],
    );
    assert!(data.can_board_at(0));
    assert!(!data.can_debark_at(0));
    assert!(data.can_board_at(1) && data.can_debark_at(1));
    assert!(!data.can_board_at(2));
    assert!(data.board_time_at(0, 2).is_none());
    assert!(data.debark_time_at(0, 2).is_some());
    assert_eq!(data.nb_of_positions(), 3);
    assert_eq!(data.nb_of_vehicles(), 2);
    assert_eq!(*data.stop_at(1), Stop { idx: 1 });
    assert_eq!(*data.flow_direction_at(2), FlowDirection::DebarkOnly);
    // every vehicle can be boarded at time zero: the first one allowed by the filter is chosen
    assert_eq!(data.best_filtered_vehicle_to_board_at(&zero[0], 0, |vj: &&str| *vj == "vj2"), Some(1));
    assert_eq!(data.best_filtered_vehicle_to_board_at(&zero[0], 0, |_vj: &&str| true), Some(0));
    assert_eq!(data.best_filtered_vehicle_to_board_at(&zero[0], 0, |_vj: &&str| false), None);
    assert_eq!(data.vehicle_board_times(1), zeros(3));
    assert_eq!(data.vehicle_debark_times(0), zeros(3));

    let mut timetables = Timetables::new();
    let timetable = timetables.push_timetable(data);
    assert_eq!(timetables.nb_of_timetables(), 1);
    assert_eq!(timetables.nb_of_vehicles(), 2);
    assert_eq!(timetables.timetables(), vec![timetable]);
    let first = Position { timetable, idx: 0 };
    let second = timetables.next_position(&first).unwrap();
    assert_eq!(second.idx, 1);
    let third = timetables.next_position(&second).unwrap();
    assert!(timetables.next_position(&third).is_none());
    assert_eq!(*timetables.stop_at(&timetable, &third), Stop { idx: 2 });
    assert_eq!(*timetables.vehicle_data(&Vehicle { timetable, idx: 1 }), "vj2");
    let mut positions = timetables.positions(&timetable);
    let mut count = 0;
    while positions.next().is_some() {
        count += 1;
    }
    assert_eq!(count, 3);
    let listed = timetables.positions_list(&timetable);
    assert_eq!(listed.len(), 3);
    for (k, position) in listed.iter().enumerate() {
        assert_eq!(position.idx_in_timetable(), k);
        assert_eq!(position.timetable, timetable);
        assert_eq!(timetables.next_position(position), listed.get(k + 1).copied());
    }
    let mut vehicles = timetables.vehicles(&timetable);
    assert_eq!(vehicles.next(), Some(Vehicle { timetable, idx: 0 }));
}

#[test]
fn daily_calendar_datetimes() {
    // 2020-01-01 and 2020-01-02
    let calendar = Calendar::new(Date { days_from_ce: 737425 }, Date { days_from_ce: 737426 });
    assert_eq!(calendar.nb_of_days(), 2);
    // midnight on 2020-01-01 is 1577836800; the calendar starts 24h + 48h before
    assert_eq!(calendar.first_datetime(), 1577836800 - 86400 - 172800);
    assert_eq!(calendar.last_datetime(), 1577836800 + 86400 + 86400 + 172800);
    assert!(calendar.contains_datetime(1577836800));
    assert!(!calendar.contains_datetime(1577836800 - 86400 - 172800 - 1));
    // seconds are counted from the first datetime both ways: the round trip gives the
    // datetime back
    assert_eq!(
        calendar.from_naive_datetime(1577836800).map(|s| calendar.to_naive_datetime(&s)),
        Some(1577836800)
    );
    assert!(calendar.from_naive_datetime(0).is_none());
    assert!(calendar.contains_date(&Date { days_from_ce: 737426 }));
    assert_eq!(calendar.date_to_days_since_start(&Date { days_from_ce: 737426 }).map(|d| calendar.to_naive_date(&d)), Some(Date { days_from_ce: 737426 }));
    let mut days = calendar.days();
    assert!(days.next().is_some());
    assert!(days.next().is_some());
    assert!(days.next().is_none());
}

#[test]
fn daily_calendar_compose_in_a_timezone() {
    let calendar = Calendar::new(Date { days_from_ce: 737425 }, Date { days_from_ce: 737426 });
    let first_day = calendar.date_to_days_since_start(&Date { days_from_ce: 737425 }).unwrap();
    let eight = Time::from_seconds(8 * 3600).unwrap();
    // 08:00 in Paris on 2020-01-01 is 07:00 UTC
    let composed = calendar.try_compose(&first_day, &eight, "Europe/Paris").unwrap();
    assert_eq!(calendar.from_naive_datetime(1577862000), Some(composed));
    assert_eq!(calendar.compose(&first_day, &eight, "Europe/Paris"), composed);
    assert!(calendar.try_compose(&first_day, &eight, "Mars/Olympus_Mons").is_none());
}

#[test]
fn daily_calendar_decompositions_in_a_timezone() {
    let calendar = Calendar::new(Date { days_from_ce: 737425 }, Date { days_from_ce: 737426 });
    // 2020-01-01 09:00 UTC, 10:00 in Paris
    let seconds = calendar.from_naive_datetime(1577869200).unwrap();
    let max = Time::max();
    let decompositions = calendar.decompositions(&seconds, "Europe/Paris", max, Time::zero());
    assert_eq!(decompositions.len(), 1);
    assert_eq!(calendar.to_naive_date(&decompositions[0].0), Date { days_from_ce: 737425 });
    assert_eq!(decompositions[0].1, Time::from_seconds(36000).unwrap());
    let with_the_next_day = calendar
        .try_decompositions(&seconds, "Europe/Paris", max, Time::from_seconds(-172800).unwrap())
        .unwrap();
    assert_eq!(with_the_next_day.len(), 2);
    assert_eq!(calendar.to_naive_date(&with_the_next_day[1].0), Date { days_from_ce: 737426 });
    assert_eq!(with_the_next_day[1].1, Time::from_seconds(-50400).unwrap());
    assert!(calendar.try_decompositions(&seconds, "Nowhere/Nowhere", max, Time::zero()).is_none());
}

fn stop_time(arrival: u32, departure: u32, boarding: u16, alighting: u16) -> StopTimeTimes {
    StopTimeTimes {
        arrival_seconds: arrival,
        departure_seconds: departure,
        boarding_duration: boarding,
        alighting_duration: alighting,
    }
}

#[test]
fn vehicle_journey_times_in_its_day() {
    let stop_times = vec![stop_time(28800, 28800, 60, 0), stop_time(32400, 32460, 0, 120)];
    let times = board_debark_timezoned_times_in_day(&stop_times).unwrap();
    assert_eq!(
        times,
        vec![
            (Time::from_seconds(28740).unwrap(), Time::from_seconds(28800).unwrap()),
            (Time::from_seconds(32460).unwrap(), Time::from_seconds(32520).unwrap()),
        ]
    );
    // a departure two days after the start of the day is no time of the day
    let too_late = vec![stop_time(28800, 28800, 0, 0), stop_time(172800, 172801, 0, 0)];
    assert_eq!(board_debark_timezoned_times_in_day(&too_late), Err(()));
    // an arrival that is no i32
    let overflowing = vec![stop_time(u32::MAX, 0, 0, 0)];
    assert_eq!(board_debark_timezoned_times_in_day(&overflowing), Err(()));
    assert_eq!(board_debark_timezoned_times_in_day(&[]), Ok(vec![]));
}

#[test]
fn vehicle_journey_times_on_a_date() {
    let calendar = Calendar::new(Date { days_from_ce: 737425 }, Date { days_from_ce: 737426 });
    let in_day = vec![(Time::from_seconds(28740).unwrap(), Time::from_seconds(28800).unwrap())];
    let second_date = Date { days_from_ce: 737426 };
    let utc = board_debark_utc_times(&in_day, &second_date, "Europe/Paris", &calendar).unwrap();
    // 07:59 and 08:00 in Paris on 2020-01-02 are 06:59 and 07:00 UTC
    assert_eq!(utc.len(), 1);
    assert_eq!(calendar.from_naive_datetime(1577948340), Some(utc[0].0));
    assert_eq!(calendar.from_naive_datetime(1577948400), Some(utc[0].1));
    let outside = Date { days_from_ce: 737427 };
    assert_eq!(board_debark_utc_times(&in_day, &outside, "Europe/Paris", &calendar), Err(()));
    assert_eq!(
        try_board_debark_utc_times(&in_day, &second_date, "Europe/Paris", &calendar),
        Some(Ok(utc))
    );
    assert_eq!(try_board_debark_utc_times(&in_day, &outside, "Europe/Paris", &calendar), Some(Err(())));
    assert_eq!(try_board_debark_utc_times(&in_day, &second_date, "Nowhere/Nowhere", &calendar), None);
}

#[test]
fn timezone_of_the_network_of_a_route() {
    let pair = |a: &str, b: &str| (a.to_string(), b.to_string());
    let model = RouteNetworks {
        routes: vec![pair("route:1", "line:1"), pair("route:2", "line:2"), pair("route:3", "line:9")],
        lines: vec![pair("line:1", "network:1"), pair("line:2", "network:2")],
        networks: vec![
            ("network:1".to_string(), Some("Europe/Paris".to_string())),
            ("network:2".to_string(), None),
        ],
    };
    assert_eq!(timezone_of("route:1", &model), Ok("Europe/Paris".to_string()));
    // the network has no timezone
    assert_eq!(timezone_of("route:2", &model), Err(()));
    // the line is not found
    assert_eq!(timezone_of("route:3", &model), Err(()));
    // the route is not found
    assert_eq!(timezone_of("route:4", &model), Err(()));
}
