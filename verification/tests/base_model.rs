use loki::models::real_time_disruption::chaos_actions::{
        line_vehicle_journeys, network_vehicle_journeys, route_vehicle_journeys, trip_vehicle_journeys,
    };
use loki::models::real_time_disruption::chaos_disruption::ChaosImpactError;
use loki::models::real_time_disruption::chaos_actions::{application_periods, concerned_dates, concerned_trips};
use loki::models::real_time_disruption::{TimePeriod, TimePeriods};
use loki::models::real_time_disruption::chaos_actions::{dispatch, ChaosAction, TripAction};
use loki::models::real_time_disruption::chaos_actions::{
    cancel_decision, reapplication, trips_with_closed_stops, without_closed_stop_times, CancelDecision,
    Reapplication,
};
use loki::models::real_time_disruption::chaos_disruption::{Impacted, NetworkId, StopPointId};
use loki::models::real_time_model::StopTime as TripStopTime;
use loki::models::real_time_model::RealTimeModel;
use loki::models::real_time_disruption::chaos_actions::impact_trip_actions;
use loki::laxatips_daily_data::time::SecondsSinceTimezonedDayStart;
use loki::dates::Date;
use loki::laxatips_data::init::{vehicle_journey_times, VehicleJourneyError};
use loki::laxatips_daily_data::time::PositiveDuration;
use loki::loads_data::real_loads::LoadsData;
use loki::models::base_model::objects::{
    Address, Calendar, Line, Mode, Network, Rgb, Route, StopArea, StopPoint, StopTime, Transfer,
    VehicleJourney,
};
use loki::models::base_model::{BadModel, BadStopTime, BaseModel, Collections, FlowDirection};
use loki::models::{Contributor, StopPointIdx, StopTimeIdx};

fn text(s: &str) -> String {
    s.to_string()
}

fn stop_point(id: &str, stop_area_id: &str, address_id: Option<&str>) -> StopPoint {
    StopPoint {
        id: text(id),
        name: format!("name of {}", id),
        stop_area_id: text(stop_area_id),
        address_id: address_id.map(text),
        platform_code: None,
        fare_zone_id: Some(text("zone 1")),
        codes: vec![(text("source"), text(id))],
    }
}

fn stop_time(stop_point_idx: usize, arrival_time: u32, departure_time: u32) -> StopTime {
    StopTime {
        stop_point_idx,
        sequence: stop_point_idx as u32,
        arrival_time,
        departure_time,
        boarding_duration: 0,
        alighting_duration: 0,
        pickup_type: 0,
        drop_off_type: 0,
    }
}

fn collections() -> Collections {
    let mut collections = Collections::default();
    collections.stop_points = vec![
        stop_point("SP1", "SA1", Some("A1")),
        stop_point("SP2", "SA2", Some("A9")),
        stop_point("SP3", "SA2", None),
    ];
    collections.addresses = vec![
        Address { id: text("A1"), street_name: text("Main street"), house_number: Some(text("12")) },
    ];
    collections.stop_areas = vec![
        StopArea { id: text("SA1"), name: text("Central"), codes: vec![], timezone: Some(text("Europe/Paris")) },
        StopArea { id: text("SA2"), name: text("Harbour"), codes: vec![(text("k"), text("v"))], timezone: None },
    ];
    let mut with_bad_pickup = stop_time(1, 3600, 3700);
    with_bad_pickup.pickup_type = 3;
    collections.vehicle_journeys = vec![
        VehicleJourney {
            id: text("VJ1"),
            route_id: text("R1"),
            service_id: text("C1"),
            physical_mode_id: text("Bus"),
            headsign: Some(text("To the harbour")),
            short_name: None,
            stop_times: vec![stop_time(0, 3600, 3660), stop_time(1, 4000, 4060), stop_time(2, 5000, 5000)],
        },
        VehicleJourney {
            id: text("VJ2"),
            route_id: text("R9"),
            service_id: text("C9"),
            physical_mode_id: text("Tram"),
            headsign: None,
            short_name: Some(text("T2")),
            stop_times: vec![stop_time(0, 3600, 3600), with_bad_pickup],
        },
    ];
    collections.routes = vec![Route { id: text("R1"), line_id: text("L1"), destination_id: Some(text("SA2")) }];
    collections.lines = vec![Line {
        id: text("L1"),
        code: Some(text("1")),
        network_id: text("N1"),
        commercial_mode_id: text("Bus"),
        color: Some(Rgb { red: 255, green: 0, blue: 0 }),
        text_color: None,
    }];
    collections.networks = vec![Network { id: text("N1"), timezone: Some(text("Europe/Paris")) }];
    collections.calendars = vec![Calendar {
        id: text("C1"),
        dates: vec![Date { days_from_ce: 737425 }, Date { days_from_ce: 737427 }],
    }];
    collections.physical_modes = vec![Mode { id: text("Bus"), name: text("Bus") }];
    collections.commercial_modes = vec![Mode { id: text("Bus"), name: text("Bus") }];
    collections.transfers = vec![
        Transfer { from_stop_id: text("SP1"), to_stop_id: text("SP2"), min_transfer_time: Some(60), real_min_transfer_time: Some(120) },
        Transfer { from_stop_id: text("SP2"), to_stop_id: text("SP7"), min_transfer_time: None, real_min_transfer_time: None },
    ];
    collections.contributors = vec![Contributor { id: text("c"), name: text("Contributor"), license: None, url: None }];
    collections
}

fn model() -> BaseModel {
    let validity = Some((Date { days_from_ce: 737425 }, Date { days_from_ce: 737430 }));
    BaseModel::new(collections(), LoadsData::empty(), validity, PositiveDuration::from_hms(0, 1, 0)).ok().unwrap()
}

#[test]
fn base_model_validity() {
    let day = Date { days_from_ce: 737425 };
    let err = |period| BaseModel::new(Collections::default(), LoadsData::empty(), period, PositiveDuration::zero()).err();
    assert_eq!(err(None), Some(BadModel::NoDataset));
    assert_eq!(err(Some((Date { days_from_ce: 737426 }, day))), Some(BadModel::StartDateAfterEndDate));
    assert!(err(Some((day, day))).is_none());
    let model = model();
    assert_eq!(model.validity_period(), (day, Date { days_from_ce: 737430 }));
    let period = model.time_period();
    // 2020-01-01 00:00:00 to 2020-01-07 00:00:00
    assert_eq!(period.start(), 1577836800);
    assert_eq!(period.end(), 1577836800 + 6 * 86400);
    let empty = BaseModel::empty();
    assert_eq!(empty.nb_of_stop_points(), 0);
    assert_eq!(empty.time_period().start(), 0);
    assert_eq!(empty.time_period().end(), 86400);
}

#[test]
fn base_model_stop_points() {
    let model = model();
    assert_eq!(model.nb_of_stop_points(), 3);
    assert_eq!(model.stop_points(), vec![0, 1, 2]);
    assert_eq!(model.stop_point_idx("SP2"), Some(1));
    assert_eq!(model.stop_point_idx("SP7"), None);
    assert_eq!(model.stop_point_name(0), "name of SP1");
    assert_eq!(model.stop_point_uri(2), "stop_point:SP3");
    assert_eq!(model.house_number(0), Some("12"));
    assert_eq!(model.street_name(0), Some("Main street"));
    // an address that the data does not hold, and no address
    assert_eq!(model.house_number(1), None);
    assert_eq!(model.street_name(2), None);
    assert_eq!(model.platform_code(0), None);
    assert_eq!(model.fare_zone_id(0), Some("zone 1"));
    assert_eq!(model.codes(1).unwrap(), &[(text("source"), text("SP2"))][..]);
    assert_eq!(model.stop_area_name(1), "SA2");
    assert_eq!(model.stop_area_uri("SA1"), Some(text("stop_area:SA1")));
    assert_eq!(model.stop_area_uri("SA3"), None);
    assert_eq!(model.stop_area_codes("SA2").unwrap().len(), 1);
    assert_eq!(model.stop_area_timezone("SA1"), Some("Europe/Paris"));
    assert_eq!(model.stop_area_timezone("SA2"), None);
    assert!(model.contains_stop_point_id("SP3"));
    assert!(!model.contains_stop_point_id("SP4"));
    assert!(model.contains_stop_area_id("SA2"));
}

#[test]
fn base_model_vehicle_journeys() {
    let model = model();
    assert_eq!(model.nb_of_vehicle_journeys(), 2);
    assert_eq!(model.vehicle_journeys(), vec![0, 1]);
    assert_eq!(model.vehicle_journey_idx("VJ2"), Some(1));
    assert_eq!(model.vehicle_journey(1).id, "VJ2");
    assert_eq!(model.vehicle_journey_name(0), "VJ1");
    assert_eq!(model.timezone(0), Some("Europe/Paris"));
    assert_eq!(model.timezone(1), None);
    assert_eq!(model.vehicle_journey_dates(0).unwrap().len(), 2);
    assert!(model.vehicle_journey_dates(1).is_none());
    assert_eq!(model.line_name(0), Some("L1"));
    assert_eq!(model.line_name(1), None);
    assert_eq!(model.line_code(0), Some("1"));
    assert_eq!(model.headsign(0), Some("To the harbour"));
    assert_eq!(model.direction(0), Some("Harbour"));
    assert_eq!(model.direction(1), None);
    assert_eq!(model.route_name(1), "R9");
    assert_eq!(model.network_name(0), Some("N1"));
    assert_eq!(model.line_color(0), Some(&Rgb { red: 255, green: 0, blue: 0 }));
    assert_eq!(model.text_color(0), None);
    assert_eq!(model.trip_short_name(0), Some("To the harbour"));
    assert_eq!(model.trip_short_name(1), Some("T2"));
    assert_eq!(model.physical_mode_name(1), "Tram");
    assert_eq!(model.commercial_mode_name(0), Some("Bus"));
    assert_eq!(model.commercial_mode_name(1), None);
    assert_eq!(model.stop_point_at(0, StopTimeIdx { idx: 2 }), Some(2));
    assert_eq!(model.stop_point_at(0, StopTimeIdx { idx: 3 }), None);
    assert!(model.trip_exists(0, Date { days_from_ce: 737427 }));
    assert!(!model.trip_exists(0, Date { days_from_ce: 737426 }));
    assert!(!model.trip_exists(1, Date { days_from_ce: 737425 }));
    assert!(!model.has_datetime_estimated(0, StopTimeIdx { idx: 0 }, StopTimeIdx { idx: 1 }));
    assert!(model.contains_line_id("L1"));
    assert!(!model.contains_route_id("R9"));
    assert!(model.contains_network_id("N1"));
    assert!(model.contains_physical_mode_id("Bus"));
    assert!(!model.contains_commercial_model_id("Tram"));
    assert_eq!(model.line("L1").unwrap().network_id, "N1");
    assert!(model.route("R9").is_none());
    assert_eq!(model.routes().len(), 1);
    assert!(model.network("N1").is_some());
    assert_eq!(model.stop_area("SA1").unwrap().name, "Central");
    assert!(model.commercial_mode("Bus").is_some());
    assert!(model.physical_mode("Tram").is_none());
    assert_eq!(model.contributors().len(), 1);
}

#[test]
fn base_model_stop_times() {
    let model = model();
    let read = model.stop_times(0).ok().unwrap();
    assert_eq!(read.len(), 3);
    assert_eq!(read[1].stop, StopPointIdx::Base(1));
    assert_eq!(read[1].board_time.to_string(), "01:07:40");
    assert_eq!(read[1].debark_time.to_string(), "01:06:40");
    assert_eq!(read[1].flow_direction, FlowDirection::BoardAndDebark);
    let (error, idx) = model.stop_times(1).err().unwrap();
    assert_eq!(error, BadStopTime::PickupType);
    assert_eq!(idx.idx, 1);
    let partial = model.stop_times_partial(0, StopTimeIdx { idx: 1 }, StopTimeIdx { idx: 2 }).ok().unwrap();
    assert_eq!(partial.len(), 2);
    assert_eq!(partial[0].stop, StopPointIdx::Base(1));
    let (_, idx) = model.stop_times_partial(1, StopTimeIdx { idx: 1 }, StopTimeIdx { idx: 1 }).err().unwrap();
    assert_eq!(idx.idx, 1);
    assert!(model.stop_times_partial(1, StopTimeIdx { idx: 0 }, StopTimeIdx { idx: 0 }).is_ok());
}

#[test]
fn base_model_transfers() {
    let model = model();
    assert_eq!(model.nb_of_transfers(), 2);
    assert_eq!(model.transfers(), vec![0, 1]);
    assert_eq!(model.from_stop(0), Some(0));
    assert_eq!(model.to_stop(0), Some(1));
    assert_eq!(model.to_stop(1), None);
    assert_eq!(model.from_stop_name(1), "SP2");
    assert_eq!(model.to_stop_name(1), "SP7");
    assert_eq!(model.transfer_duration(0).total_seconds(), 120);
    assert_eq!(model.transfer_duration(1).total_seconds(), 60);
    assert_eq!(model.transfer_walking_duration(0).total_seconds(), 60);
    assert_eq!(model.transfer_walking_duration(1).total_seconds(), 0);
}

#[test]
fn base_model_trip_time_period() {
    let model = model();
    let day = Date { days_from_ce: 737425 };
    // 2020-01-01 in Europe/Paris starts at 2019-12-31 23:00:00 UTC
    let period = model.trip_time_period(0, &day).unwrap();
    assert_eq!(period.start(), 1577833200 + 3600);
    assert_eq!(period.end(), 1577833200 + 5000 + 1);
    let checked = model.checked_trip_time_period(0, &day).unwrap().unwrap();
    assert_eq!(checked.start(), period.start());
    // not on a day of service
    assert!(model.trip_time_period(0, &Date { days_from_ce: 737426 }).is_none());
    // no calendar in the data
    assert!(model.trip_time_period(1, &day).is_none());
    assert!(model.checked_trip_time_period(1, &day).unwrap().is_none());
}

#[test]
fn chaos_objects_name_their_vehicle_journeys() {
    let model = model();
    assert_eq!(network_vehicle_journeys(&model, "N1").ok(), Some(vec![0]));
    assert!(matches!(network_vehicle_journeys(&model, "N9"), Err(ChaosImpactError::NetworkAbsent(n)) if n.id == "N9"));
    assert_eq!(line_vehicle_journeys(&model, "L1").ok(), Some(vec![0]));
    assert!(matches!(line_vehicle_journeys(&model, "L9"), Err(ChaosImpactError::LineAbsent(_))));
    assert_eq!(route_vehicle_journeys(&model, "R1").ok(), Some(vec![0]));
    // the data has no route R9, though VJ2 names it
    assert!(matches!(route_vehicle_journeys(&model, "R9"), Err(ChaosImpactError::RouteAbsent(_))));
    assert_eq!(trip_vehicle_journeys(&model, "VJ2").ok(), Some(vec![1]));
    assert!(matches!(trip_vehicle_journeys(&model, "X"), Err(ChaosImpactError::VehicleJourneyAbsent(_))));
}

#[test]
fn chaos_impacts_concern_the_trips_that_meet_their_periods() {
    let model = model();
    // VJ1 runs on 2020-01-01 from 1577836800 to 1577838201, and on 2020-01-03
    let during = [TimePeriod::new(1577837000, 1577837100).unwrap()];
    let periods = TimePeriods::new(&during).unwrap();
    assert_eq!(concerned_dates(&model, 0, &periods), vec![Date { days_from_ce: 737425 }]);
    assert!(concerned_dates(&model, 1, &periods).is_empty());
    assert_eq!(concerned_trips(&model, &[1, 0], &periods), vec![(0, Date { days_from_ce: 737425 })]);
    let before = [TimePeriod::new(1577800000, 1577830000).unwrap()];
    let periods = TimePeriods::new(&before).unwrap();
    assert!(concerned_dates(&model, 0, &periods).is_empty());
    // the periods of an impact are cut to that of the model
    let model_period = TimePeriod::new(100, 200).unwrap();
    let impact = [
        TimePeriod::new(0, 150).unwrap(),
        TimePeriod::new(300, 400).unwrap(),
        TimePeriod::new(150, 250).unwrap(),
    ];
    let cut = application_periods(&impact, &model_period);
    assert_eq!(cut.len(), 2);
    assert_eq!((cut[0].start(), cut[0].end()), (100, 150));
    assert_eq!((cut[1].start(), cut[1].end()), (150, 200));
}

#[test]
fn chaos_actions_on_a_trip() {
    assert_eq!(dispatch(ChaosAction::Alter, false, true), TripAction::DeleteAndLink);
    // a real-time update takes precedence
    assert_eq!(dispatch(ChaosAction::Alter, true, true), TripAction::Link);
    // an absent trip is only linked
    assert_eq!(dispatch(ChaosAction::Alter, false, false), TripAction::Link);
    assert_eq!(dispatch(ChaosAction::Inform, false, true), TripAction::Link);
    assert_eq!(dispatch(ChaosAction::CancelAlteration, true, false), TripAction::CancelImpact);
    assert_eq!(dispatch(ChaosAction::CancelInform, false, false), TripAction::Unlink);
}

#[test]
fn stop_point_closures_concern_the_trips_that_stop_there_during_them() {
    let model = model();
    // on 2020-01-01 the day of VJ1 starts at 1577833200 (midnight in Paris): it debarks at
    // SP2 at 1577837200, boards there at 1577837260, and stops at SP3 at 1577838200
    let around_sp2 = [TimePeriod::new(1577837150, 1577837250).unwrap()];
    let periods = TimePeriods::new(&around_sp2).unwrap();
    assert_eq!(trips_with_closed_stops(&model, &[1], &periods), vec![(0, Date { days_from_ce: 737425 })]);
    // SP1 is not used during the period
    assert!(trips_with_closed_stops(&model, &[0], &periods).is_empty());
    // SP3 is used later
    assert!(trips_with_closed_stops(&model, &[2], &periods).is_empty());
    let around_sp3 = [TimePeriod::new(1577838200, 1577838201).unwrap()];
    let periods = TimePeriods::new(&around_sp3).unwrap();
    assert_eq!(trips_with_closed_stops(&model, &[2, 0], &periods), vec![(0, Date { days_from_ce: 737425 })]);
    // VJ2 stops at SP2 but its stop times cannot all be read
    assert!(trips_with_closed_stops(&model, &[], &periods).is_empty());
}

fn trip_stop_time(stop: usize, arrival: i32, departure: i32) -> TripStopTime {
    TripStopTime {
        stop: StopPointIdx::Base(stop),
        arrival_time: SecondsSinceTimezonedDayStart::from_seconds(arrival).unwrap(),
        departure_time: SecondsSinceTimezonedDayStart::from_seconds(departure).unwrap(),
        flow_direction: FlowDirection::BoardAndDebark,
    }
}

#[test]
fn closed_stop_times_are_taken_out_of_a_trip() {
    let stop_times = vec![trip_stop_time(0, 100, 110), trip_stop_time(1, 200, 210), trip_stop_time(2, 300, 300)];
    let during = [TimePeriod::new(1000 + 205, 1000 + 250).unwrap()];
    let periods = TimePeriods::new(&during).unwrap();
    // the day starts at 1000: the stop time at stop point 1 is boarded at 1210
    let kept = without_closed_stop_times(&stop_times, &[1], 1000, &periods).unwrap();
    assert_eq!(kept.len(), 2);
    assert_eq!(kept[0].stop, StopPointIdx::Base(0));
    assert_eq!(kept[1].stop, StopPointIdx::Base(2));
    // stop point 2 is not used during the period: nothing to change
    assert!(without_closed_stop_times(&stop_times, &[2], 1000, &periods).is_none());
    // the same stop point on a day that starts later is not concerned
    assert!(without_closed_stop_times(&stop_times, &[1], 5000, &periods).is_none());
}

#[test]
fn cancelling_an_impact_on_a_trip() {
    assert_eq!(cancel_decision(false, false, true, true, true), CancelDecision::Nothing);
    assert_eq!(cancel_decision(true, true, true, true, true), CancelDecision::UnlinkOnly);
    assert_eq!(cancel_decision(true, false, false, true, true), CancelDecision::UnlinkOnly);
    assert_eq!(cancel_decision(true, false, true, false, true), CancelDecision::UnlinkOnly);
    assert_eq!(cancel_decision(true, false, true, true, true), CancelDecision::Restore { modify: true });
    assert_eq!(cancel_decision(true, false, true, true, false), CancelDecision::Restore { modify: false });
    let network = Impacted::NetworkDeleted(NetworkId { id: "N1".to_string() });
    assert_eq!(reapplication(&network), Reapplication::DeleteIfPresent);
    let stop_point = Impacted::StopPointDeleted(StopPointId { id: "SP1".to_string() });
    assert_eq!(reapplication(&stop_point), Reapplication::RemoveStops);
}

#[test]
fn vehicle_journeys_are_checked_before_going_in_the_timetables() {
    let mut collections = collections();
    let times = vehicle_journey_times(&collections, 0).ok().unwrap();
    assert_eq!(
        times.stop_flows,
        vec![(0, FlowDirection::BoardOnly), (1, FlowDirection::BoardAndDebark), (2, FlowDirection::DebarkOnly)]
    );
    assert_eq!(times.board_debark_times.len(), 3);
    assert_eq!(times.board_debark_times[1].0.seconds(), 4060);
    assert_eq!(times.board_debark_times[1].1.seconds(), 4000);
    assert_eq!(times.calendar_idx, 0);
    assert_eq!(times.timezone, "Europe/Paris");
    // the second stop time of VJ2 has a pickup type that is not handled
    assert_eq!(vehicle_journey_times(&collections, 1).err(), Some(VehicleJourneyError::BadFlow(1)));
    collections.vehicle_journeys[1].stop_times[1].pickup_type = 0;
    assert_eq!(vehicle_journey_times(&collections, 1).err(), Some(VehicleJourneyError::CalendarAbsent));
    collections.vehicle_journeys[1].service_id = "C1".to_string();
    assert_eq!(vehicle_journey_times(&collections, 1).err(), Some(VehicleJourneyError::RouteAbsent));
    collections.vehicle_journeys[1].stop_times.truncate(1);
    assert_eq!(vehicle_journey_times(&collections, 1).err(), Some(VehicleJourneyError::TooFewStopTimes));
    collections.networks[0].timezone = None;
    assert_eq!(vehicle_journey_times(&collections, 0).err(), Some(VehicleJourneyError::NoTimezone));
    collections.networks[0].timezone = Some("Europe/Paris".to_string());
    collections.vehicle_journeys[0].stop_times[2].arrival_time = 200_000;
    assert_eq!(vehicle_journey_times(&collections, 0).err(), Some(VehicleJourneyError::BadTimes(2)));
}

#[test]
fn an_impact_alters_the_trips_it_concerns() {
    let model = model();
    let real_time = RealTimeModel::new();
    let during = [TimePeriod::new(1577837000, 1577837100).unwrap()];
    let periods = TimePeriods::new(&during).unwrap();
    let date = Date { days_from_ce: 737425 };
    assert_eq!(
        impact_trip_actions(&real_time, &model, &[0, 1], &periods, ChaosAction::Alter),
        vec![(0, date, TripAction::DeleteAndLink)]
    );
    assert_eq!(
        impact_trip_actions(&real_time, &model, &[0], &periods, ChaosAction::CancelInform),
        vec![(0, date, TripAction::Unlink)]
    );
}
