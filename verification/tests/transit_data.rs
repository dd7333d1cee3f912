use loki::dates::Date;
use loki::laxatips_daily_data::time::{Calendar, PositiveDuration};
use loki::laxatips_daily_data::transit_data::{Stop, StopTimeFlows, Transfer, TransitData};
use loki::laxatips_data::timetables::timetables_data::FlowDirection;

fn flows(stop_point_idx: usize, pickup_type: u8, drop_off_type: u8) -> StopTimeFlows {
    StopTimeFlows { stop_point_idx, pickup_type, drop_off_type }
}

fn data() -> TransitData {
    TransitData::empty(Calendar::new(Date { days_from_ce: 737425 }, Date { days_from_ce: 737426 }))
}

#[test]
fn stop_flows_of_a_vehicle_journey() {
    let mut data = data();
    let stop_times = [flows(10, 0, 0), flows(20, 1, 0), flows(10, 0, 1), flows(30, 0, 0)];
    let stop_flows = data.create_stop_flows(&stop_times).unwrap();
    assert_eq!(
        stop_flows,
        vec![
            (Stop { idx: 0 }, FlowDirection::BoardOnly),
            (Stop { idx: 1 }, FlowDirection::DebarkOnly),
            (Stop { idx: 0 }, FlowDirection::BoardOnly),
            (Stop { idx: 2 }, FlowDirection::DebarkOnly),
        ]
    );
    assert_eq!(data.nb_of_stops(), 3);
    assert_eq!(data.stop_point_idx(&Stop { idx: 1 }), 20);
    assert_eq!(data.stop_point_idx_to_stop(&30), Some(&Stop { idx: 2 }));
    assert_eq!(data.stop_to_usize(&Stop { idx: 2 }), 2);
    assert!(data.stop_data(&Stop { idx: 2 }).transfers.is_empty());
    // the first stop time only boards and the last one only debarks
    let stop_flows = data.create_stop_flows(&[flows(20, 0, 0), flows(30, 0, 0)]).unwrap();
    assert_eq!(
        stop_flows,
        vec![(Stop { idx: 1 }, FlowDirection::BoardOnly), (Stop { idx: 2 }, FlowDirection::DebarkOnly)]
    );
}

#[test]
fn unhandled_stop_flows() {
    let mut data = data();
    // reading stops at the first unhandled stop time, whose stop was added
    let bad = [flows(40, 0, 0), flows(50, 2, 0), flows(60, 0, 0)];
    assert_eq!(data.create_stop_flows(&bad), Err(()));
    assert_eq!(data.nb_of_stops(), 2);
    assert_eq!(data.stop_point_idx_to_stop(&50), Some(&Stop { idx: 1 }));
    assert!(data.stop_point_idx_to_stop(&60).is_none());
    assert_eq!(data.create_stop_flows(&[flows(40, 1, 1)]), Err(()));
    // fewer than two stop times
    assert_eq!(data.create_stop_flows(&[flows(70, 0, 0)]), Err(()));
    assert_eq!(data.nb_of_stops(), 3);
    assert_eq!(data.create_stop_flows(&[]), Err(()));
}

#[test]
fn transfers_between_known_stops() {
    let mut data = data();
    data.create_stop_flows(&[flows(10, 0, 0), flows(20, 0, 0)]).unwrap();
    let two_minutes = PositiveDuration::from_hms(0, 2, 0);
    data.insert_transfer(10, 20, 7, two_minutes);
    // a transfer to a stop point with no stop is ignored
    data.insert_transfer(10, 99, 8, two_minutes);
    data.insert_transfer(99, 10, 9, two_minutes);
    let transfer = Transfer { stop: Stop { idx: 0 }, idx_in_stop_transfers: 0 };
    assert_eq!(data.transfer(&transfer), (Stop { idx: 1 }, two_minutes));
    assert_eq!(data.transfer_idx(&transfer), 7);
    assert_eq!(data.transfer_start_stop(&transfer), Stop { idx: 0 });
    assert_eq!(data.stop_data(&Stop { idx: 0 }).transfers.len(), 1);
    assert!(data.stop_data(&Stop { idx: 1 }).transfers.is_empty());
}
