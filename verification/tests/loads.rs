use loki::loads_data::{load_to_int, occupancy_to_load, Load, LoadsData as KeptLoadsData, TripLoads};
use loki::dates::Date;
use loki::loads_data::real_loads::{
    parse_record, Load as RealLoad, LoadRecord, LoadsCount, LoadsData, MissingLoads, RecordError,
};
use loki::models::real_time_model::BaseModelIds;
use loki::models::real_time_model::NewVehicleJourneyIdx;
use loki::models::VehicleJourneyIdx;
use loki::loads_data::empty_loads::{Load as EmptyLoad, LoadsCount as EmptyLoadsCount};
use loki::occupancy_data::real_occupancy::{ratio_to_occupancy, Occupancy, OccupancyCount, TripOccupancy};
use loki::occupancy_data::empty_occupancy::OccupanciesCount;
use loki::models::StopTimeIdx;
use loki::occupancy_data::real_occupancy::OccupancyData;
use loki::loads_data::empty_loads::LoadsData as EmptyLoadsData;
use loki::occupancy_data::empty_occupancy::OccupancyData as EmptyOccupancyData;

#[test]
fn occupancy_thresholds() {
    assert_eq!(occupancy_to_load(0), Load::Low);
    assert_eq!(occupancy_to_load(30), Load::Low);
    assert_eq!(occupancy_to_load(31), Load::Medium);
    assert_eq!(occupancy_to_load(70), Load::Medium);
    assert_eq!(occupancy_to_load(71), Load::High);
    assert_eq!(occupancy_to_load(100), Load::High);
    assert_eq!(ratio_to_occupancy(30), Occupancy::Low);
    assert_eq!(ratio_to_occupancy(50), Occupancy::Medium);
    assert_eq!(ratio_to_occupancy(90), Occupancy::High);
}

#[test]
fn loads_are_ordered_by_rank() {
    assert_eq!(load_to_int(&Load::Low), 0);
    assert_eq!(load_to_int(&Load::Medium), 1);
    assert_eq!(load_to_int(&Load::High), 2);
    assert!(Load::Low < Load::Medium && Load::Medium < Load::High);
    assert!(RealLoad::Low < RealLoad::High);
    assert_eq!(RealLoad::default(), RealLoad::Medium);
    assert_eq!(EmptyLoad::default(), EmptyLoad::Unknown);
}

#[test]
fn loads_count_add_and_total() {
    let count = LoadsCount::zero().add(RealLoad::High).add(RealLoad::Low).add(RealLoad::Low);
    assert_eq!(count, LoadsCount { high: 1, medium: 0, low: 2 });
    assert_eq!(count.total(), 3);
    assert_eq!(count.max(), RealLoad::High);
    assert_eq!(LoadsCount::zero().max(), RealLoad::Low);
    assert_eq!(LoadsCount::zero().add(RealLoad::Medium).max(), RealLoad::Medium);
    assert_eq!(LoadsCount::default(), LoadsCount::zero());
}

#[test]
fn loads_count_is_lower_compares_high_then_medium_then_low() {
    let a = LoadsCount { high: 0, medium: 5, low: 5 };
    let b = LoadsCount { high: 1, medium: 0, low: 0 };
    assert!(a.is_lower(&b));
    assert!(!b.is_lower(&a));
    let c = LoadsCount { high: 0, medium: 5, low: 6 };
    assert!(a.is_lower(&c));
    assert!(!c.is_lower(&a));
    assert!(a.is_lower(&a));
}

#[test]
fn occupancy_count_matches_loads_count() {
    let count = OccupancyCount::zero().add(Occupancy::Medium).add(Occupancy::Medium);
    assert_eq!(count, OccupancyCount { high: 0, medium: 2, low: 0 });
    assert_eq!(count.total(), 2);
    assert_eq!(count.max(), Occupancy::Medium);
    assert!(OccupancyCount::zero().is_lower(&count));
    assert!(!count.is_lower(&OccupancyCount::zero()));
}

#[test]
fn empty_counts_are_all_equal() {
    let count = EmptyLoadsCount::zero().add(EmptyLoad::Unknown);
    assert_eq!(count, EmptyLoadsCount::zero());
    assert!(count.is_lower(&EmptyLoadsCount::default()));
    assert_eq!(count.max(), EmptyLoad::Unknown);
    let occupancies = OccupanciesCount::zero();
    assert!(occupancies.is_lower(&OccupanciesCount::default()));
}

#[test]
fn trip_loads_start_medium() {
    let _loads = TripLoads::new(3);
    let _occupancies = TripOccupancy::new(0);
}

fn record(vehicle_journey_idx: usize, stop_sequence: u32, occupancy: u8, days_from_ce: i32) -> LoadRecord {
    LoadRecord { vehicle_journey_idx, stop_sequence, occupancy, date: Date { days_from_ce } }
}

#[test]
fn loads_of_the_records_of_a_trip() {
    // vehicle journey 0 has stop times of sequences 1, 2, 3, vehicle journey 1 none
    let stop_sequences = vec![vec![1, 2, 3], vec![]];
    let records = [
        record(0, 2, 80, 737425),
        record(0, 1, 10, 737425),
        record(0, 9, 10, 737425),
        record(0, 2, 50, 737426),
        record(1, 1, 90, 737425),
    ];
    let loads = LoadsData::from_records(&records, &stop_sequences);
    let base = VehicleJourneyIdx::Base(0);
    // the last stop time is left out
    assert_eq!(loads.loads(&base, &Date { days_from_ce: 737425 }), Some(&[RealLoad::Low, RealLoad::High][..]));
    assert_eq!(loads.loads(&base, &Date { days_from_ce: 737426 }), Some(&[RealLoad::Medium, RealLoad::Medium][..]));
    assert_eq!(loads.loads(&base, &Date { days_from_ce: 737427 }), None);
    assert_eq!(loads.loads(&VehicleJourneyIdx::Base(1), &Date { days_from_ce: 737425 }), None);
    let added = VehicleJourneyIdx::New(NewVehicleJourneyIdx { idx: 0 });
    assert_eq!(loads.loads(&added, &Date { days_from_ce: 737425 }), None);
}

#[test]
fn later_records_and_repeated_sequences() {
    // the sequence 5 is at the first and the last stop times: a record for it sets the last
    let stop_sequences = vec![vec![5, 6, 5, 7]];
    let records = [record(0, 5, 100, 737425), record(0, 6, 20, 737425), record(0, 6, 40, 737425)];
    let loads = LoadsData::from_records(&records, &stop_sequences);
    assert_eq!(LoadsData::empty().loads(&VehicleJourneyIdx::Base(0), &Date { days_from_ce: 737425 }), None);
    assert_eq!(
        loads.loads(&VehicleJourneyIdx::Base(0), &Date { days_from_ce: 737425 }),
        Some(&[RealLoad::Medium, RealLoad::Medium, RealLoad::High][..])
    );
}

#[test]
fn the_first_load_of_each_stop_time_is_kept() {
    let stop_sequences = vec![vec![1, 2, 3]];
    let records = [
        record(0, 2, 80, 737425),
        record(0, 1, 10, 737425),
        record(0, 2, 10, 737425),
        record(0, 4, 10, 737426),
    ];
    let loads = KeptLoadsData::from_records(&records, &stop_sequences);
    assert_eq!(
        loads.loads(&0, &Date { days_from_ce: 737425 }),
        Some(&[Load::Low, Load::High, Load::Medium][..])
    );
    // no record of that day has the sequence of a stop time
    assert_eq!(loads.loads(&0, &Date { days_from_ce: 737426 }), None);
    assert_eq!(loads.loads(&1, &Date { days_from_ce: 737425 }), None);
}

#[test]
fn a_single_low_occupancy_is_stored() {
    let stop_sequences = vec![vec![0, 1, 2]];
    let records = [record(0, 1, 20, 737425)];
    let loads = KeptLoadsData::from_records(&records, &stop_sequences);
    assert_eq!(
        loads.loads(&0, &Date { days_from_ce: 737425 }),
        Some(&[Load::Medium, Load::Low, Load::Medium][..])
    );
}

fn fields(values: &[&str]) -> Vec<String> {
    values.iter().map(|value| value.to_string()).collect()
}

#[test]
fn records_of_occupancy_lines() {
    let base = BaseModelIds {
        vehicle_journey_ids: vec!["vj:1".to_string(), "vj:2".to_string()],
        stop_point_ids: vec![],
    };
    let record = parse_record(&fields(&["vj:2", "+7", "0.42", "2020-01-02"]), &base, Some(42)).unwrap();
    assert_eq!(record.vehicle_journey_idx, 1);
    assert_eq!(record.stop_sequence, 7);
    assert_eq!(record.occupancy, 42);
    assert_eq!(record.date, Date { days_from_ce: 737426 });
    assert_eq!(
        parse_record(&fields(&["vj:2", "7", "0.42"]), &base, Some(42)).err(),
        Some(RecordError::FieldCount(3))
    );
    assert_eq!(
        parse_record(&fields(&["vj:3", "7", "0.42", "2020-01-02"]), &base, Some(42)).err(),
        Some(RecordError::UnknownTrip)
    );
    assert_eq!(
        parse_record(&fields(&["vj:1", "seven", "0.42", "2020-01-02"]), &base, Some(42)).err(),
        Some(RecordError::BadStopSequence)
    );
    assert_eq!(
        parse_record(&fields(&["vj:1", "7", "1.5", "2020-01-02"]), &base, None).err(),
        Some(RecordError::BadOccupancy)
    );
    assert_eq!(
        parse_record(&fields(&["vj:1", "7", "0.42", "2020-01-02"]), &base, Some(101)).err(),
        Some(RecordError::BadOccupancy)
    );
    assert_eq!(
        parse_record(&fields(&["vj:1", "7", "0.42", "02/01/2020"]), &base, Some(42)).err(),
        Some(RecordError::BadDate)
    );
}

#[test]
fn missing_loads_of_the_vehicle_journeys() {
    let d1 = Date { days_from_ce: 737425 };
    let d2 = Date { days_from_ce: 737426 };
    let stop_sequences = vec![vec![1, 2], vec![3], vec![4]];
    let records = [record(0, 1, 10, 737425), record(2, 4, 10, 737426)];
    let calendars = vec![Some(vec![d1, d2]), Some(vec![d1]), None];
    let expected = vec![MissingLoads::Trip(0, d2), MissingLoads::VehicleJourney(1)];
    let loads = LoadsData::from_records(&records, &stop_sequences);
    assert_eq!(loads.missing_loads(&calendars), expected);
    let kept = KeptLoadsData::from_records(&records, &stop_sequences);
    assert_eq!(kept.missing_loads(&calendars), expected);
    assert!(loads.missing_loads(&[None, None, None]).is_empty());
}

#[test]
fn occupancies_of_trips_from_records() {
    let stop_sequences = vec![vec![1, 2, 3], vec![1]];
    let records = [
        record(0, 2, 80, 737425),
        record(0, 1, 10, 737425),
        record(0, 1, 50, 737425),
        record(0, 9, 10, 737426),
        record(1, 1, 90, 737425),
    ];
    let data = OccupancyData::from_records(&records, &stop_sequences);
    let base = VehicleJourneyIdx::Base(0);
    let day = Date { days_from_ce: 737425 };
    // the later record of a stop time wins, and the last stop time is left out
    assert_eq!(data.occupancies(&base, &day), Some(&[Occupancy::Medium, Occupancy::High][..]));
    assert_eq!(data.occupancy(&base, StopTimeIdx { idx: 1 }, &day), Some(Occupancy::High));
    assert_eq!(data.occupancy(&base, StopTimeIdx { idx: 2 }, &day), None);
    // no record of that day has the sequence of a stop time
    assert_eq!(data.occupancies(&base, &Date { days_from_ce: 737426 }), None);
    // a trip with a single stop time has no occupancy left
    assert_eq!(data.occupancies(&VehicleJourneyIdx::Base(1), &day), Some(&[][..]));
    let added = VehicleJourneyIdx::New(NewVehicleJourneyIdx { idx: 0 });
    assert_eq!(data.occupancy(&added, StopTimeIdx { idx: 0 }, &day), None);
    assert_eq!(OccupancyData::empty().occupancies(&base, &day), None);
}

#[test]
fn empty_data_has_no_loads_nor_occupancies() {
    let day = Date { days_from_ce: 737425 };
    let base = VehicleJourneyIdx::Base(0);
    assert_eq!(EmptyLoadsData::empty().loads(&base, &day), None);
    assert_eq!(EmptyOccupancyData::empty().occupancies(&base, &day), None);
    assert_eq!(EmptyOccupancyData::empty().occupancy(&base, StopTimeIdx { idx: 0 }, &day), None);
}
