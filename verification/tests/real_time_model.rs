use loki::models::real_time_model::DayChange;
use loki::dates::Date;
use loki::laxatips_daily_data::time::SecondsSinceTimezonedDayStart;
use loki::models::base_model::FlowDirection;
use loki::models::real_time_disruption::{StopTime, Trip, Update};
use loki::models::real_time_model::{
    BaseModelIds, ChaosLink, ChaosObjectIdx, DataChange, NewStopPointIdx, NewVehicleJourneyIdx, RealTimeModel,
    TripData, UpdateError,
};
use loki::models::real_time_disruption::chaos_actions::{CancelDecision, ChaosAction, TripAction};
use loki::models::{StopPointIdx, VehicleJourneyIdx};

fn base() -> BaseModelIds {
    BaseModelIds {
        vehicle_journey_ids: vec!["vj:1".to_string(), "vj:2".to_string()],
        stop_point_ids: vec!["sp:1".to_string(), "sp:2".to_string()],
    }
}

fn trip(id: &str, days_from_ce: i32) -> Trip {
    Trip { vehicle_journey_id: id.to_string(), reference_date: Date { days_from_ce } }
}

fn stop_time(stop_id: &str, seconds: i32) -> StopTime {
    let time = SecondsSinceTimezonedDayStart::from_seconds(seconds).unwrap();
    StopTime {
        stop_id: stop_id.to_string(),
        arrival_time: time,
        departure_time: time,
        flow_direction: FlowDirection::BoardAndDebark,
    }
}

#[test]
fn base_trip_deleted_then_added_again() {
    let base = base();
    let mut model = RealTimeModel::new();
    let day = trip("vj:1", 737425);
    assert_eq!(model.delete("d1", &day, &base).unwrap(), VehicleJourneyIdx::Base(0));
    assert!(matches!(
        model.base_vehicle_journey_last_version(0, &Date { days_from_ce: 737425 }),
        Some(TripData::Deleted())
    ));
    // the trip no longer runs that day, so it cannot be deleted again
    assert!(matches!(model.delete("d2", &day, &base), Err(UpdateError::DeleteAbsentTrip(t)) if t.vehicle_journey_id == "vj:1"));
    assert!(matches!(model.modify("d2", &day, &[], &base), Err(UpdateError::ModifyAbsentTrip(_))));
    // on another day it still runs
    let next_day = trip("vj:1", 737426);
    assert!(matches!(model.add("d2", &next_day, &[], &base), Err(UpdateError::AddPresentTrip(_))));
    assert!(model.base_vehicle_journey_last_version(0, &Date { days_from_ce: 737426 }).is_none());
    // it can be added again on the day it was deleted
    let (vj, stop_times) = model.add("d3", &day, &[stop_time("sp:2", 3600)], &base).unwrap();
    assert_eq!(vj, VehicleJourneyIdx::Base(0));
    assert_eq!(stop_times.len(), 1);
    assert_eq!(stop_times[0].stop, StopPointIdx::Base(1));
    assert!(matches!(
        model.base_vehicle_journey_last_version(0, &Date { days_from_ce: 737425 }),
        Some(TripData::Present(times)) if times.len() == 1
    ));
    assert!(matches!(model.add("d4", &day, &[], &base), Err(UpdateError::AddPresentTrip(_))));
    let (vj, stop_times) = model.modify("d4", &day, &[], &base).unwrap();
    assert_eq!(vj, VehicleJourneyIdx::Base(0));
    assert!(stop_times.is_empty());
}

#[test]
fn new_trip_and_new_stops() {
    let base = base();
    let mut model = RealTimeModel::default();
    let added = trip("new:1", 737425);
    assert!(matches!(model.modify("d1", &added, &[], &base), Err(UpdateError::ModifyAbsentTrip(_))));
    let stop_times = [stop_time("sp:1", 3600), stop_time("sp:x", 7200), stop_time("sp:y", 10800)];
    let (vj, made) = model.add("d1", &added, &stop_times, &base).unwrap();
    assert_eq!(vj, VehicleJourneyIdx::New(NewVehicleJourneyIdx { idx: 0 }));
    assert_eq!(made[0].stop, StopPointIdx::Base(0));
    // each new stop gets its position among the new stops
    assert_eq!(made[1].stop, StopPointIdx::New(NewStopPointIdx { idx: 0 }));
    assert_eq!(made[2].stop, StopPointIdx::New(NewStopPointIdx { idx: 1 }));
    // a stop already given keeps its index
    let (_, again) = model.add("d5", &trip("new:3", 737425), &[stop_time("sp:y", 3600), stop_time("sp:z", 7200)], &base).unwrap();
    assert_eq!(again[0].stop, StopPointIdx::New(NewStopPointIdx { idx: 1 }));
    assert_eq!(again[1].stop, StopPointIdx::New(NewStopPointIdx { idx: 2 }));
    assert_eq!(made[2].departure_time, SecondsSinceTimezonedDayStart::from_seconds(10800).unwrap());
    assert!(matches!(
        model.new_vehicle_journey_last_version(&NewVehicleJourneyIdx { idx: 0 }, &Date { days_from_ce: 737425 }),
        Some(TripData::Present(times)) if times.len() == 3
    ));
    // a new vehicle journey runs on every date once added, even after a deletion
    assert!(matches!(model.add("d2", &trip("new:1", 737426), &[], &base), Err(UpdateError::AddPresentTrip(_))));
    assert_eq!(model.delete("d2", &added, &base).unwrap(), VehicleJourneyIdx::New(NewVehicleJourneyIdx { idx: 0 }));
    assert!(model.delete("d3", &added, &base).is_ok());
    let (other, _) = model.add("d4", &trip("new:2", 737425), &[], &base).unwrap();
    assert_eq!(other, VehicleJourneyIdx::New(NewVehicleJourneyIdx { idx: 2 }));
}

#[test]
fn updates_give_the_data_changes() {
    let base = base();
    let mut model = RealTimeModel::new();
    let date = Date { days_from_ce: 737425 };
    let change = model.apply_update("d1", &Update::Delete(trip("vj:2", 737425)), &base).unwrap();
    assert!(matches!(change, DataChange::Remove(VehicleJourneyIdx::Base(1), d) if d == date));
    assert!(matches!(
        model.apply_update("d1", &Update::Delete(trip("vj:2", 737425)), &base),
        Err(UpdateError::DeleteAbsentTrip(_))
    ));
    let change = model
        .apply_update("d2", &Update::Add(trip("vj:2", 737425), vec![stop_time("sp:2", 60)]), &base)
        .unwrap();
    assert!(matches!(change, DataChange::Add(VehicleJourneyIdx::Base(1), times, d) if d == date && times.len() == 1));
    let change = model
        .apply_update("d3", &Update::Modify(trip("vj:2", 737425), vec![]), &base)
        .unwrap();
    assert!(matches!(change, DataChange::Modify(VehicleJourneyIdx::Base(1), times, _) if times.is_empty()));
    assert!(matches!(
        model.apply_update("d4", &Update::Modify(trip("unknown", 737425), vec![]), &base),
        Err(UpdateError::ModifyAbsentTrip(_))
    ));
}

#[test]
fn base_ids_are_found_at_their_first_position() {
    let base = BaseModelIds {
        vehicle_journey_ids: vec!["a".to_string(), "b".to_string(), "a".to_string()],
        stop_point_ids: vec![],
    };
    assert_eq!(base.vehicle_journey_idx("a"), Some(0));
    assert_eq!(base.vehicle_journey_idx("b"), Some(1));
    assert_eq!(base.vehicle_journey_idx("c"), None);
    assert_eq!(base.stop_point_idx("a"), None);
}

#[test]
fn new_days_get_the_last_versions_of_their_trips() {
    let base = base();
    let mut model = RealTimeModel::new();
    let day = Date { days_from_ce: 737425 };
    model.delete("d1", &trip("vj:1", 737425), &base).unwrap();
    model.modify("d2", &trip("vj:2", 737425), &[stop_time("sp:1", 3600)], &base).unwrap();
    model.add("d3", &trip("new:1", 737425), &[stop_time("sp:2", 7200), stop_time("sp:x", 9000)], &base).unwrap();
    let changes = model.changes_for_new_days(2, &[day, Date { days_from_ce: 737426 }]);
    assert_eq!(changes.len(), 5);
    // a deleted trip gets its base schedule back, a modified one its new stop times
    assert!(matches!(changes[0], DayChange::InsertBase(0, d) if d == day));
    assert!(matches!(&changes[1], DayChange::AddVersion(VehicleJourneyIdx::Base(1), times, d) if *d == day && times.len() == 1));
    assert!(matches!(&changes[2], DayChange::AddVersion(VehicleJourneyIdx::New(idx), times, _) if idx.idx == 0 && times.len() == 2));
    // without versions on the other day, the base schedule
    assert!(matches!(changes[3], DayChange::InsertBase(0, _)));
    assert!(matches!(changes[4], DayChange::InsertBase(1, _)));
}

#[test]
fn a_disruption_applies_its_updates_in_their_order() {
    let base = base();
    let mut model = RealTimeModel::new();
    let date = Date { days_from_ce: 737425 };
    let updates = vec![
        Update::Delete(trip("vj:2", 737425)),
        Update::Delete(trip("vj:2", 737425)),
        Update::Add(trip("vj:2", 737425), vec![stop_time("sp:2", 60)]),
    ];
    let results = model.apply_disruption("d1", &updates, &base);
    assert_eq!(results.len(), 3);
    assert!(matches!(results[0], Ok(DataChange::Remove(VehicleJourneyIdx::Base(1), d)) if d == date));
    // the second deletion fails, and the addition after it is applied all the same
    assert!(matches!(results[1], Err(UpdateError::DeleteAbsentTrip(_))));
    assert!(matches!(&results[2], Ok(DataChange::Add(VehicleJourneyIdx::Base(1), times, d)) if *d == date && times.len() == 1));
}

#[test]
fn chaos_impacts_are_linked_to_trips() {
    let mut model = RealTimeModel::new();
    let date = Date { days_from_ce: 737425 };
    let first = ChaosLink { impact: 0, object: ChaosObjectIdx::Impacted(0) };
    let second = ChaosLink { impact: 1, object: ChaosObjectIdx::Informed(2) };
    model.link_chaos_impact(1, date, first);
    model.link_chaos_impact(1, date, second);
    model.link_chaos_impact(1, date, first);
    model.link_chaos_impact(0, date, first);
    assert!(model.is_linked(1, date, first));
    assert_eq!(model.linked_impacts(1, date), vec![first, second]);
    model.unlink_chaos_impact(1, date, first);
    assert_eq!(model.linked_impacts(1, date), vec![second]);
    assert!(model.is_linked(0, date, first));
}

#[test]
fn chaos_actions_delete_link_and_restore_trips() {
    let base = base();
    let mut model = RealTimeModel::new();
    let date = Date { days_from_ce: 737425 };
    let link = ChaosLink { impact: 0, object: ChaosObjectIdx::Impacted(0) };
    let change = model.apply_trip_action(&base, "chaos", 1, date, link, TripAction::DeleteAndLink);
    assert!(matches!(change, Some(DataChange::Remove(VehicleJourneyIdx::Base(1), d)) if d == date));
    assert!(model.is_linked(1, date, link));
    // the trip no longer runs: a second deletion only links
    assert!(model.apply_trip_action(&base, "chaos", 1, date, link, TripAction::DeleteAndLink).is_none());
    // cancelling the impact gives the trip back its base stop times, as an addition
    let (decision, restored) =
        model.cancel_impact_on_trip(&base, "chaos", 1, date, link, false, true, Some(vec![stop_time("sp:1", 60)]));
    assert_eq!(decision, CancelDecision::Restore { modify: false });
    assert!(matches!(restored, Some(Ok(DataChange::Add(VehicleJourneyIdx::Base(1), times, _))) if times.len() == 1));
    assert!(!model.is_linked(1, date, link));
    // nothing is linked any more: nothing to cancel
    let (decision, restored) = model.cancel_impact_on_trip(&base, "chaos", 1, date, link, false, true, None);
    assert_eq!(decision, CancelDecision::Nothing);
    assert!(restored.is_none());
    // a real-time update takes precedence over an alteration, which then only links
    let other = ChaosLink { impact: 2, object: ChaosObjectIdx::Impacted(0) };
    let change = model.dispatch_on_base_vehicle_journey(&base, "chaos", 0, date, other, ChaosAction::Alter, true, true, None);
    assert!(change.is_none());
    assert!(model.is_linked(0, date, other));
    let change = model.dispatch_on_base_vehicle_journey(&base, "chaos", 0, date, other, ChaosAction::Alter, false, true, None);
    assert!(matches!(change, Some(Ok(DataChange::Remove(VehicleJourneyIdx::Base(0), _)))));
}
