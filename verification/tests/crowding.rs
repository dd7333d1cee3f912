use loki::crowding_data::{CrowdData, MissingCrowd};
use loki::dates::Date;
use loki::loads_data::real_loads::{last_index_of, nb_distinct_sequences, LoadRecord};

fn record(vehicle_journey_idx: usize, stop_sequence: u32, occupancy: u8, days_from_ce: i32) -> LoadRecord {
    LoadRecord { vehicle_journey_idx, stop_sequence, occupancy, date: Date { days_from_ce } }
}

#[test]
fn missing_loads_of_the_trips() {
    let d1 = Date { days_from_ce: 737425 };
    let d2 = Date { days_from_ce: 737426 };
    let d3 = Date { days_from_ce: 737427 };
    let stop_sequences = vec![vec![1, 2, 3], vec![4]];
    let records = [
        record(0, 1, 40, 737425),
        record(0, 1, 90, 737425),
        record(0, 3, 50, 737425),
        record(0, 7, 10, 737425),
        record(0, 2, 20, 737426),
    ];
    let crowd = CrowdData::from_records(&records, &stop_sequences);
    let calendars = vec![Some(vec![d1, d2, d3]), None];
    assert_eq!(
        crowd.missing_loads(&calendars, &stop_sequences),
        vec![
            MissingCrowd::Load(0, d1, 2),
            MissingCrowd::Load(0, d2, 1),
            MissingCrowd::Load(0, d2, 3),
            MissingCrowd::Load(0, d3, 1),
            MissingCrowd::Load(0, d3, 2),
            MissingCrowd::Load(0, d3, 3),
        ]
    );
    // a vehicle journey that runs but has no load at all
    let calendars = vec![Some(vec![d2]), Some(vec![d1])];
    assert_eq!(
        crowd.missing_loads(&calendars, &stop_sequences),
        vec![MissingCrowd::Load(0, d2, 1), MissingCrowd::Load(0, d2, 3), MissingCrowd::VehicleJourney(1)]
    );
    let calendars = vec![None, None];
    assert!(crowd.missing_loads(&calendars, &stop_sequences).is_empty());
}

#[test]
fn loads_of_vehicle_journeys_with_a_repeated_sequence() {
    let d1 = Date { days_from_ce: 737425 };
    let d2 = Date { days_from_ce: 737426 };
    // the sequence 1 is repeated: the loads of a trip are one per distinct sequence
    let stop_sequences = vec![vec![1, 1, 2]];
    let records = [record(0, 1, 40, 737425), record(0, 1, 90, 737425)];
    let crowd = CrowdData::from_records(&records, &stop_sequences);
    assert!(crowd.has_loads_on_dates(0, &[d2, d1]));
    assert!(!crowd.has_loads_on_dates(0, &[d2]));
    assert!(!crowd.has_loads_on_dates(1, &[d1]));
    // on a date without loads, every stop time misses one
    assert_eq!(
        crowd.missing_loads(&[Some(vec![d2])], &stop_sequences),
        vec![MissingCrowd::Load(0, d2, 1), MissingCrowd::Load(0, d2, 1), MissingCrowd::Load(0, d2, 2)]
    );
}

#[test]
fn last_indices_and_distinct_sequences() {
    assert_eq!(last_index_of(&[1, 2, 1, 3], 1), Some(2));
    assert_eq!(last_index_of(&[1, 2, 1, 3], 4), None);
    assert_eq!(nb_distinct_sequences(&[1, 2, 1, 3]), 3);
    assert_eq!(nb_distinct_sequences(&[]), 0);
}
