use loki::config::RequestParams;
use loki::laxatips_daily_data::time::{PositiveDuration, SecondsSinceTimezonedDayStart};
use loki::laxatips_data::time as data_time;
use loki::loads_data::empty_loads::{Load as EmptyLoad, LoadsCount as EmptyLoadsCount};
use loki::loads_data::real_loads::{Load, LoadsCount};
use loki::occupancy_data::empty_occupancy::{Occupancy as EmptyOccupancy, OccupanciesCount};
use loki::occupancy_data::real_occupancy::{Occupancy, OccupancyCount};
use loki::places_nearby::BadPlacesNearby;

#[test]
fn duration_text_by_magnitude() {
    assert_eq!(PositiveDuration::from_hms(1, 2, 3).to_string(), "1h02m03s");
    assert_eq!(PositiveDuration::from_hms(0, 2, 3).to_string(), "2m03s");
    assert_eq!(PositiveDuration::from_hms(0, 0, 3).to_string(), "3s");
    assert_eq!(PositiveDuration::zero().to_string(), "0s");
    assert_eq!(PositiveDuration::from_hms(25, 0, 0).to_string(), "25h00m00s");
    assert_eq!(data_time::PositiveDuration::from_hms(0, 10, 0).to_string(), "10m00s");
}

#[test]
fn time_of_day_text() {
    let morning = SecondsSinceTimezonedDayStart::from_seconds(29100).unwrap();
    assert_eq!(morning.to_string(), "08:05:00");
    let before = SecondsSinceTimezonedDayStart::from_seconds(-3661).unwrap();
    assert_eq!(before.to_string(), "-1:-1:-1");
    let next_day = SecondsSinceTimezonedDayStart::from_seconds(90061).unwrap();
    assert_eq!(next_day.to_string(), "25:01:01");
    assert_eq!(data_time::SecondsSinceTimezonedDayStart::zero().to_string(), "00:00:00");
}

#[test]
fn counts_text() {
    let count = LoadsCount { high: 1, medium: 2, low: 3 };
    assert_eq!(count.to_string(), "High 1; Medium 2; Low 3; total 6");
    let occupancy = OccupancyCount { high: 0, medium: 10, low: 5 };
    assert_eq!(occupancy.to_string(), "High 0; Medium 10; Low 5; total 15");
    assert_eq!(EmptyLoadsCount::zero().to_string(), "LoadsCount ()");
    assert_eq!(OccupanciesCount::zero().to_string(), "OccupanciesCount ()");
}

#[test]
fn level_names() {
    assert_eq!(Load::Low.to_string(), "Low");
    assert_eq!(Load::Medium.to_string(), "Medium");
    assert_eq!(Load::High.to_string(), "High");
    assert_eq!(Occupancy::High.to_string(), "High");
    assert_eq!(EmptyLoad::Unknown.to_string(), "Load ()");
    assert_eq!(EmptyOccupancy::Unknown.to_string(), "Occupancy ()");
}

#[test]
fn request_params_as_arguments() {
    assert_eq!(
        RequestParams::default().to_string(),
        "--leg_arrival_penalty 2m00s --leg_walking_penalty 2m00s --max_nb_of_legs 10 --max_journey_duration 24h00m00s"
    );
}

#[test]
fn bad_places_nearby_messages() {
    assert_eq!(
        BadPlacesNearby::InvalidEntryPoint("x".to_string()).to_string(),
        "Unable to parse entrypoint : x"
    );
    assert_eq!(
        BadPlacesNearby::InvalidPtObject("stop:1".to_string()).to_string(),
        "Invalid/Unknown pt_object : stop:1"
    );
    assert_eq!(
        BadPlacesNearby::InvalidFormatCoord("a;b".to_string()).to_string(),
        "Unable to parse a;b as a coord. Expected format is (double:double)"
    );
    assert_eq!(
        BadPlacesNearby::InvalidRangeCoord("100:0".to_string()).to_string(),
        "Invalid coord : 100:0. Coordinates must be between [-90;90] for latitude and [-180;180] for longitude"
    );
}
