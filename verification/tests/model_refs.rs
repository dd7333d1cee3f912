use loki::dates::Date;
use loki::laxatips_daily_data::time::{PositiveDuration, SecondsSinceTimezonedDayStart};
use loki::loads_data::real_loads::LoadsData;
use loki::models::base_model::objects::{
    Calendar, Line, Network, Rgb, Route, StopArea, StopPoint, StopTime as PlannedStopTime,
    VehicleJourney,
};
use loki::models::base_model::{BaseModel, Collections, FlowDirection};
use loki::models::model_refs::ModelRefs;
use loki::models::real_time_disruption::{StopTime, Trip};
use loki::models::real_time_model::{BaseModelIds, NewStopPointIdx, NewVehicleJourneyIdx, RealTimeModel};
use loki::models::{RealTimeLevel, StopPointIdx, StopTimeIdx, VehicleJourneyIdx};

fn text(s: &str) -> String {
    s.to_string()
}

fn planned(stop_point_idx: usize, seconds: u32) -> PlannedStopTime {
    PlannedStopTime {
        stop_point_idx,
        sequence: stop_point_idx as u32,
        arrival_time: seconds,
        departure_time: seconds + 60,
        boarding_duration: 0,
        alighting_duration: 0,
        pickup_type: 0,
        drop_off_type: 0,
    }
}

fn stop_point(id: &str) -> StopPoint {
    StopPoint {
        id: text(id),
        name: format!("name of {}", id),
        stop_area_id: text("SA1"),
        address_id: None,
        platform_code: Some(text("B")),
        fare_zone_id: None,
        codes: vec![],
    }
}

fn base_model() -> BaseModel {
    let mut collections = Collections::default();
    collections.stop_points = vec![stop_point("sp:1"), stop_point("sp:2")];
    collections.stop_areas =
        vec![StopArea { id: text("SA1"), name: text("Central"), codes: vec![], timezone: None }];
    collections.vehicle_journeys = vec![
        VehicleJourney {
            id: text("vj:1"),
            route_id: text("R1"),
            service_id: text("C1"),
            physical_mode_id: text("Bus"),
            headsign: Some(text("North")),
            short_name: None,
            stop_times: vec![planned(0, 3600), planned(1, 7200)],
        },
        VehicleJourney {
            id: text("vj:2"),
            route_id: text("R1"),
            service_id: text("C1"),
            physical_mode_id: text("Bus"),
            headsign: None,
            short_name: None,
            stop_times: vec![planned(1, 3600), planned(0, 7200)],
        },
    ];
    collections.routes = vec![Route { id: text("R1"), line_id: text("L1"), destination_id: Some(text("SA1")) }];
    collections.lines = vec![Line {
        id: text("L1"),
        code: None,
        network_id: text("N1"),
        commercial_mode_id: text("Metro"),
        color: None,
        text_color: Some(Rgb { red: 1, green: 2, blue: 3 }),
    }];
    collections.networks = vec![Network { id: text("N1"), timezone: Some(text("Europe/Paris")) }];
    collections.calendars = vec![Calendar { id: text("C1"), dates: vec![Date { days_from_ce: 737425 }] }];
    let validity = Some((Date { days_from_ce: 737425 }, Date { days_from_ce: 737425 }));
    BaseModel::new(collections, LoadsData::empty(), validity, PositiveDuration::zero()).ok().unwrap()
}

fn ids() -> BaseModelIds {
    BaseModelIds {
        vehicle_journey_ids: vec![text("vj:1"), text("vj:2")],
        stop_point_ids: vec![text("sp:1"), text("sp:2")],
    }
}

fn real_time_stop(stop_id: &str, seconds: i32) -> StopTime {
    let time = SecondsSinceTimezonedDayStart::from_seconds(seconds).unwrap();
    StopTime { stop_id: text(stop_id), arrival_time: time, departure_time: time, flow_direction: FlowDirection::BoardOnly }
}

fn real_time() -> RealTimeModel {
    let mut real_time = RealTimeModel::new();
    let day = Date { days_from_ce: 737425 };
    // vj:1 is deleted, vj:2 is modified, new:1 is added
    real_time.delete("d1", &Trip { vehicle_journey_id: text("vj:1"), reference_date: day }, &ids()).unwrap();
    real_time
        .modify(
            "d2",
            &Trip { vehicle_journey_id: text("vj:2"), reference_date: day },
            &[real_time_stop("sp:2", 4000), real_time_stop("sp:x", 5000)],
            &ids(),
        )
        .unwrap();
    real_time
        .add("d3", &Trip { vehicle_journey_id: text("new:1"), reference_date: day }, &[real_time_stop("sp:1", 6000)], &ids())
        .unwrap();
    real_time
}

#[test]
fn model_refs_names() {
    let base = base_model();
    let real_time = real_time();
    let model = ModelRefs::new(&base, &real_time);
    let added = VehicleJourneyIdx::New(NewVehicleJourneyIdx { idx: 0 });
    assert_eq!(model.stop_point_idx("sp:2"), Some(StopPointIdx::Base(1)));
    assert_eq!(model.stop_point_idx("sp:x"), Some(StopPointIdx::New(NewStopPointIdx { idx: 0 })));
    assert_eq!(model.stop_point_idx("sp:z"), None);
    assert_eq!(model.stop_point_name(&StopPointIdx::Base(0)), "name of sp:1");
    assert_eq!(model.stop_area_name(&StopPointIdx::Base(0)), "SA1");
    assert_eq!(model.stop_area_name(&StopPointIdx::New(NewStopPointIdx { idx: 0 })), "unknown_stop_area");
    assert_eq!(model.vehicle_journey_idx("vj:2"), Some(VehicleJourneyIdx::Base(1)));
    assert_eq!(model.vehicle_journey_idx("new:1"), Some(added));
    assert_eq!(model.vehicle_journey_idx("new:2"), None);
    assert_eq!(model.vehicle_journey_name(&added), "new:1");
    assert_eq!(model.vehicle_journey_name(&VehicleJourneyIdx::Base(0)), "vj:1");
    assert_eq!(model.line_name(&VehicleJourneyIdx::Base(0)), "L1");
    assert_eq!(model.line_name(&added), "unknown_line");
    assert_eq!(model.route_name(&added), "unknown_route");
    assert_eq!(model.network_name(&VehicleJourneyIdx::Base(1)), "N1");
    assert_eq!(model.network_name(&added), "unknown_network");
    assert_eq!(model.physical_mode_name(&added), "unknown_physical_mode");
    assert_eq!(model.commercial_mode_name(&VehicleJourneyIdx::Base(0)), "Metro");
    assert_eq!(model.commercial_mode_name(&added), "unknown_commercial_mode");
    assert_eq!(model.stop_point_uri(&StopPointIdx::Base(1)), "stop_point:sp:2");
    assert_eq!(model.platform_code(&StopPointIdx::Base(1)), Some("B"));
    assert_eq!(model.platform_code(&StopPointIdx::New(NewStopPointIdx { idx: 0 })), None);
    assert!(model.contains_stop_point_id("sp:x"));
    assert!(model.contains_stop_point_id("sp:1"));
    assert!(!model.contains_stop_point_id("sp:z"));
    assert!(model.contains_line_id("L1"));
    assert_eq!(model.nb_of_new_stops(), 1);
    assert_eq!(model.new_stops(), vec![NewStopPointIdx { idx: 0 }]);
    assert_eq!(model.stop_point_name(&StopPointIdx::New(NewStopPointIdx { idx: 0 })), "sp:x");
    assert_eq!(model.stop_point_uri(&StopPointIdx::New(NewStopPointIdx { idx: 0 })), "stop_point:sp:x");
    assert_eq!(model.nb_of_base_stops(), 2);
    assert_eq!(model.nb_of_new_vehicle_journeys(), 1);
    assert_eq!(model.new_vehicle_journeys(), vec![NewVehicleJourneyIdx { idx: 0 }]);
    assert_eq!(model.base_vehicle_journeys(), vec![0, 1]);
    assert_eq!(model.stop_area_uri("SA1"), Some(text("stop_area:SA1")));
}

#[test]
fn model_refs_real_time_reads() {
    let base = base_model();
    let real_time = real_time();
    let model = ModelRefs::new(&base, &real_time);
    let day = Date { days_from_ce: 737425 };
    let other_day = Date { days_from_ce: 737426 };
    let deleted = VehicleJourneyIdx::Base(0);
    let modified = VehicleJourneyIdx::Base(1);
    let added = VehicleJourneyIdx::New(NewVehicleJourneyIdx { idx: 0 });
    let first = StopTimeIdx { idx: 0 };
    let second = StopTimeIdx { idx: 1 };
    // as planned
    assert_eq!(model.stop_point_at(&deleted, second, day, RealTimeLevel::Base), Some(StopPointIdx::Base(1)));
    assert_eq!(model.stop_point_at(&added, first, day, RealTimeLevel::Base), None);
    // with the updates
    assert_eq!(model.stop_point_at(&deleted, second, day, RealTimeLevel::RealTime), None);
    assert_eq!(
        model.stop_point_at(&modified, second, day, RealTimeLevel::RealTime),
        Some(StopPointIdx::New(NewStopPointIdx { idx: 0 }))
    );
    assert_eq!(model.stop_point_at(&added, first, day, RealTimeLevel::RealTime), Some(StopPointIdx::Base(0)));
    assert_eq!(model.stop_point_at(&deleted, first, other_day, RealTimeLevel::RealTime), Some(StopPointIdx::Base(0)));
    // timezones
    assert_eq!(model.timezone(&deleted, day), "UTC");
    assert_eq!(model.timezone(&deleted, other_day), "Europe/Paris");
    assert_eq!(model.timezone(&added, day), "UTC");
    // stop times
    let planned = model.stop_times(&deleted, day, first, second, RealTimeLevel::Base).unwrap();
    assert_eq!(planned.len(), 2);
    assert_eq!(planned[0].board_time.to_string(), "01:01:00");
    assert!(model.stop_times(&deleted, other_day, first, second, RealTimeLevel::Base).is_none());
    assert!(model.stop_times(&deleted, day, first, second, RealTimeLevel::RealTime).is_none());
    let changed = model.stop_times(&modified, day, second, second, RealTimeLevel::RealTime).unwrap();
    assert_eq!(changed.len(), 1);
    assert_eq!(changed[0].stop, StopPointIdx::New(NewStopPointIdx { idx: 0 }));
    assert_eq!(changed[0].flow_direction, FlowDirection::BoardOnly);
    assert_eq!(model.stop_times(&added, day, first, first, RealTimeLevel::RealTime).unwrap().len(), 1);
    // without a version on that day the plan is read, whether the trip runs or not
    assert_eq!(model.stop_times(&deleted, other_day, first, second, RealTimeLevel::RealTime).unwrap().len(), 2);
    assert!(!model.has_datetime_estimated(&deleted, day, first, second, RealTimeLevel::Base));
    // what is only read of planned trips
    assert_eq!(model.headsign(&deleted, day, RealTimeLevel::Base), Some("North"));
    assert_eq!(model.headsign(&deleted, day, RealTimeLevel::RealTime), None);
    assert_eq!(model.headsign(&deleted, other_day, RealTimeLevel::RealTime), Some("North"));
    assert_eq!(model.direction(&deleted, other_day), Some("Central"));
    assert_eq!(model.direction(&deleted, day), None);
    assert_eq!(model.text_color(&modified, other_day), Some(&Rgb { red: 1, green: 2, blue: 3 }));
    assert_eq!(model.line_color(&modified, other_day), None);
    assert_eq!(model.trip_short_name(&deleted, other_day), Some("North"));
    assert_eq!(model.trip_short_name(&added, day), None);
    assert_eq!(model.line_code(&deleted), None);
}
