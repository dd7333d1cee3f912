use vstd::prelude::*;

use super::chaos_disruption::{ChaosImpactError, Impacted, Informed, LineId, NetworkId, RouteId};
use super::time_periods::{
    date_days_of, earliest_start_of, intersection, is_datetime, latest_end_of, TimePeriod, TimePeriods,
    MAX_DATE_DAYS, MAX_SECONDS_IN_UTC_DAY,
};
use super::VehicleJourneyId;
use crate::dates::Date;
use crate::models::base_model::objects::{contains_id, index_of_id};
use crate::models::base_model::objects::StopTime as BaseStopTime;
use crate::models::base_model::{
    all_readable, line_index_of, reads_all, reads_as, route_index_of, trip_day_start, trip_period_of, BaseModel,
    Collections,
};
use crate::engine::pareto_front::lemma_filter_step;
use crate::models::real_time_model::StopTime as TripStopTime;
use crate::models::real_time_model::{RealTimeModel, TripData};
use crate::models::base_model::trip_exists_in;
use crate::models::{StopPointIdx, StopTime as ReadStopTime};
use crate::text::str_equals;

verus! {

/// What a chaos impact asks for the trips it concerns
#[derive(Debug, Clone, Copy, PartialEq, Eq, Structural)]
pub enum ChaosAction {
    Alter,
    Inform,
    CancelAlteration,
    CancelInform,
}

/// What is done with a trip (a vehicle journey on a date) that a chaos impact concerns
#[derive(Debug, Clone, Copy, PartialEq, Eq, Structural)]
pub enum TripAction {
    /// the trip is deleted, and linked to the impact
    DeleteAndLink,
    /// the trip is only linked to the impact
    Link,
    /// the alteration of the trip by the impact is cancelled
    CancelImpact,
    /// the trip is no longer linked to the impact
    Unlink,
}

/// What is done with a trip for `action`: an alteration deletes the trip, unless a real-time
/// update of the trip takes precedence or the trip does not run, and links it in any case;
/// an information only links it; the cancellations undo these
pub open spec fn trip_action_of(action: ChaosAction, has_real_time_update: bool, is_present: bool) -> TripAction {
    match action {
        ChaosAction::Alter => if !has_real_time_update && is_present {
            TripAction::DeleteAndLink
        } else {
            TripAction::Link
        },
        ChaosAction::Inform => TripAction::Link,
        ChaosAction::CancelAlteration => TripAction::CancelImpact,
        ChaosAction::CancelInform => TripAction::Unlink,
    }
}

/// What is done with a trip for `action`, as `trip_action_of` says, when the trip has a
/// real-time update or not, and runs or not
pub fn dispatch(action: ChaosAction, has_real_time_update: bool, is_present: bool) -> (r: TripAction)
    ensures
        r == trip_action_of(action, has_real_time_update, is_present),
        action is CancelAlteration ==> r is CancelImpact,
        action is CancelInform ==> r is Unlink,
        action is Inform ==> r is Link,
        action is Alter ==> (r is DeleteAndLink <==> !has_real_time_update && is_present),
        action is Alter ==> (r is DeleteAndLink || r is Link),
{
    match action {
        ChaosAction::Alter => if !has_real_time_update && is_present {
            TripAction::DeleteAndLink
        } else {
            TripAction::Link
        },
        ChaosAction::Inform => TripAction::Link,
        ChaosAction::CancelAlteration => TripAction::CancelImpact,
        ChaosAction::CancelInform => TripAction::Unlink,
    }
}

/// Cancelling undoes what was done, whatever is known of the trip when it is cancelled: an
/// alteration deletes a trip only when it runs and has no real-time update, and links it in
/// any case; cancelling an alteration cancels the impact on the trip, which gives a trip it
/// deleted back, whether the trip runs or has a real-time update when it is cancelled; an
/// information only links, and cancelling it only unlinks; a cancellation never deletes nor
/// links a trip.
pub proof fn lemma_cancellations_undo(h: bool, p: bool, h2: bool, p2: bool)
    ensures
        trip_action_of(ChaosAction::Alter, h, p) is DeleteAndLink <==> (!h && p),
        trip_action_of(ChaosAction::Alter, h, p) is DeleteAndLink || trip_action_of(ChaosAction::Alter, h, p) is Link,
        trip_action_of(ChaosAction::Alter, h, p) is DeleteAndLink ==> trip_action_of(
            ChaosAction::CancelAlteration,
            h2,
            p2,
        ) is CancelImpact,
        trip_action_of(ChaosAction::CancelAlteration, h, p) == trip_action_of(ChaosAction::CancelAlteration, h2, p2),
        trip_action_of(ChaosAction::CancelAlteration, h, p) is CancelImpact,
        trip_action_of(ChaosAction::Inform, h, p) is Link,
        trip_action_of(ChaosAction::CancelInform, h, p) is Unlink,
        trip_action_of(ChaosAction::CancelInform, h, p) == trip_action_of(ChaosAction::CancelInform, h2, p2),
        !(trip_action_of(ChaosAction::CancelAlteration, h, p) is DeleteAndLink),
        !(trip_action_of(ChaosAction::CancelAlteration, h, p) is Link),
        !(trip_action_of(ChaosAction::CancelInform, h, p) is DeleteAndLink),
        !(trip_action_of(ChaosAction::CancelInform, h, p) is Link),
{
}

/// The period `period` and one of `periods` have an instant in common
pub open spec fn meets(periods: Seq<TimePeriod>, period: (int, int)) -> bool {
    exists|i: int|
        0 <= i < periods.len() && (((#[trigger] periods[i])@.0 <= period.0 < periods[i]@.1) || (period.0
            <= periods[i]@.0 < period.1))
}

/// The trip of the vehicle journey `vj` on the day of number `day` has a time period, which
/// meets one of `periods`
pub open spec fn trip_meets(base: BaseModel, vj: int, day: int, periods: Seq<TimePeriod>) -> bool {
    let date = Date { days_from_ce: day as i32 };
    &&& base.trip_period_defined(vj, date)
    &&& match trip_period_of(base, vj, date) {
        Some(p) => meets(periods, p),
        None => false,
    }
}

/// The dates, among the `n` days from the day of number `first` on, on which the trip of
/// the vehicle journey `vj` meets one of `periods`
pub open spec fn days_meeting(base: BaseModel, vj: int, periods: Seq<TimePeriod>, first: int, n: nat) -> Seq<Date>
    decreases n,
{
    if n == 0 {
        Seq::empty()
    } else {
        let before = days_meeting(base, vj, periods, first, (n - 1) as nat);
        let day = first + n - 1;
        if trip_meets(base, vj, day, periods) {
            before.push(Date { days_from_ce: day as i32 })
        } else {
            before
        }
    }
}

/// The number of the first day, and the number of days, that `periods` may concern
pub open spec fn concerned_days(periods: Seq<TimePeriod>) -> (int, nat) {
    let first = date_days_of(earliest_start_of(periods) - MAX_SECONDS_IN_UTC_DAY);
    let last = date_days_of(latest_end_of(periods) + MAX_SECONDS_IN_UTC_DAY);
    (first, if first <= last {
        (last - first + 1) as nat
    } else {
        0
    })
}

/// The dates that `periods` may concern, in order, on which the trip of the vehicle journey
/// `vj` has a time period that meets one of them; a date on which its time period cannot be
/// told is left out
pub fn concerned_dates(base: &BaseModel, vj: usize, periods: &TimePeriods) -> (r: Vec<Date>)
    requires
        vj < base.collections().vehicle_journeys@.len(),
        is_datetime(earliest_start_of(periods@) - MAX_SECONDS_IN_UTC_DAY),
        is_datetime(latest_end_of(periods@) + MAX_SECONDS_IN_UTC_DAY),
    ensures
        r@ == days_meeting(*base, vj as int, periods@, concerned_days(periods@).0, concerned_days(periods@).1),
{
    let ghost first = concerned_days(periods@).0;
    let ghost last = date_days_of(latest_end_of(periods@) + MAX_SECONDS_IN_UTC_DAY);
    let mut iter = periods.dates_possibly_concerned();
    let mut r: Vec<Date> = Vec::new();
    let ghost mut k: int = 0;
    let mut current = iter.next();
    while current.is_some()
        invariant
            vj < base.collections().vehicle_journeys@.len(),
            first == concerned_days(periods@).0,
            last == date_days_of(latest_end_of(periods@) + MAX_SECONDS_IN_UTC_DAY),
            last <= MAX_DATE_DAYS,
            iter@.1 == last,
            0 <= k,
            first <= last ==> first + k <= last + 1,
            first > last ==> k == 0,
            match current {
                Some(date) => date.days_from_ce == first + k && first + k <= last,
                None => first + k > last,
            },
            iter@.0 matches Some(x) ==> x == first + k + 1,
            first + k + 1 <= last ==> iter@.0 == Some(first + k + 1),
            r@ == days_meeting(*base, vj as int, periods@, first, k as nat),
        decreases last - first - k + 1,
    {
        let date = current.unwrap();
        let concerned = match base.checked_trip_time_period(vj, &date) {
            Some(Some(period)) => periods.intersects(&period),
            _ => false,
        };
        if concerned {
            r.push(date);
        }
        proof {
            assert(Date { days_from_ce: (first + k) as i32 } == date);
            k = k + 1;
        }
        current = iter.next();
    }
    proof {
        if first <= last {
            assert(k == last - first + 1);
        } else {
            assert(k == 0);
        }
    }
    r
}

/// The vehicle journey `vj` runs on a line of the network of id `id`
pub open spec fn on_network(c: Collections, vj: int, id: Seq<char>) -> bool {
    match line_index_of(c, vj) {
        Some(p) => c.lines@[p as int].network_id@ == id,
        None => false,
    }
}

/// The vehicle journey `vj` runs on a route of the line of id `id`
pub open spec fn on_line(c: Collections, vj: int, id: Seq<char>) -> bool {
    match route_index_of(c, vj) {
        Some(p) => c.routes@[p as int].line_id@ == id,
        None => false,
    }
}

/// The vehicle journey `vj` runs on the route of id `id`
pub open spec fn on_route(c: Collections, vj: int, id: Seq<char>) -> bool {
    c.vehicle_journeys@[vj].route_id@ == id
}

/// The vehicle journeys, among the first `n`, that `keep` keeps, by increasing index
pub open spec fn journeys_kept(keep: spec_fn(int) -> bool, n: nat) -> Seq<usize>
    decreases n,
{
    if n == 0 {
        Seq::empty()
    } else {
        let before = journeys_kept(keep, (n - 1) as nat);
        if keep(n - 1) {
            before.push((n - 1) as usize)
        } else {
            before
        }
    }
}

/// The vehicle journeys of the network of id `id`, by increasing index; an error when the
/// data has no network of that id
pub fn network_vehicle_journeys(base: &BaseModel, id: &str) -> (r: Result<Vec<usize>, ChaosImpactError>)
    ensures
        r is Err <==> !contains_id(base.collections().networks@, id@),
        r matches Err(e) ==> e matches ChaosImpactError::NetworkAbsent(network) && network.id@ == id@,
        r matches Ok(vjs) ==> vjs@ == journeys_kept(
            |vj: int| on_network(base.collections(), vj, id@),
            base.collections().vehicle_journeys@.len(),
        ),
{
    if !base.contains_network_id(id) {
        return Err(ChaosImpactError::NetworkAbsent(NetworkId { id: id.to_string() }));
    }
    let ghost keep = |vj: int| on_network(base.collections(), vj, id@);
    let n = base.nb_of_vehicle_journeys();
    let mut r: Vec<usize> = Vec::new();
    let mut vj: usize = 0;
    while vj < n
        invariant
            n == base.collections().vehicle_journeys@.len(),
            vj <= n,
            keep == (|vj: int| on_network(base.collections(), vj, id@)),
            r@ == journeys_kept(keep, vj as nat),
        decreases n - vj,
    {
        let kept = match base.network_name(vj) {
            Some(name) => str_equals(name, id),
            None => false,
        };
        if kept {
            r.push(vj);
        }
        vj += 1;
    }
    Ok(r)
}

/// The vehicle journeys of the line of id `id`, by increasing index; an error when the data
/// has no line of that id
pub fn line_vehicle_journeys(base: &BaseModel, id: &str) -> (r: Result<Vec<usize>, ChaosImpactError>)
    ensures
        r is Err <==> !contains_id(base.collections().lines@, id@),
        r matches Err(e) ==> e matches ChaosImpactError::LineAbsent(line) && line.id@ == id@,
        r matches Ok(vjs) ==> vjs@ == journeys_kept(
            |vj: int| on_line(base.collections(), vj, id@),
            base.collections().vehicle_journeys@.len(),
        ),
{
    if !base.contains_line_id(id) {
        return Err(ChaosImpactError::LineAbsent(LineId { id: id.to_string() }));
    }
    let ghost keep = |vj: int| on_line(base.collections(), vj, id@);
    let n = base.nb_of_vehicle_journeys();
    let mut r: Vec<usize> = Vec::new();
    let mut vj: usize = 0;
    while vj < n
        invariant
            n == base.collections().vehicle_journeys@.len(),
            vj <= n,
            keep == (|vj: int| on_line(base.collections(), vj, id@)),
            r@ == journeys_kept(keep, vj as nat),
        decreases n - vj,
    {
        let kept = match base.line_name(vj) {
            Some(name) => str_equals(name, id),
            None => false,
        };
        if kept {
            r.push(vj);
        }
        vj += 1;
    }
    Ok(r)
}

/// The vehicle journeys of the route of id `id`, by increasing index; an error when the data
/// has no route of that id
pub fn route_vehicle_journeys(base: &BaseModel, id: &str) -> (r: Result<Vec<usize>, ChaosImpactError>)
    ensures
        r is Err <==> !contains_id(base.collections().routes@, id@),
        r matches Err(e) ==> e matches ChaosImpactError::RouteAbsent(route) && route.id@ == id@,
        r matches Ok(vjs) ==> vjs@ == journeys_kept(
            |vj: int| on_route(base.collections(), vj, id@),
            base.collections().vehicle_journeys@.len(),
        ),
{
    if !base.contains_route_id(id) {
        return Err(ChaosImpactError::RouteAbsent(RouteId { id: id.to_string() }));
    }
    let ghost keep = |vj: int| on_route(base.collections(), vj, id@);
    let n = base.nb_of_vehicle_journeys();
    let mut r: Vec<usize> = Vec::new();
    let mut vj: usize = 0;
    while vj < n
        invariant
            n == base.collections().vehicle_journeys@.len(),
            vj <= n,
            keep == (|vj: int| on_route(base.collections(), vj, id@)),
            r@ == journeys_kept(keep, vj as nat),
        decreases n - vj,
    {
        if str_equals(base.route_name(vj), id) {
            r.push(vj);
        }
        vj += 1;
    }
    Ok(r)
}

/// The vehicle journey of id `id`; an error when the data has none
pub fn trip_vehicle_journeys(base: &BaseModel, id: &str) -> (r: Result<Vec<usize>, ChaosImpactError>)
    ensures
        match index_of_id(base.collections().vehicle_journeys@, id@) {
            Some(p) => r matches Ok(vjs) && vjs@ == seq![p as usize],
            None => r matches Err(e) && e matches ChaosImpactError::VehicleJourneyAbsent(vj) && vj.id@ == id@,
        },
{
    match base.vehicle_journey_idx(id) {
        Some(idx) => {
            let r = vec![idx];
            assert(r@ =~= seq![idx]);
            Ok(r)
        },
        None => Err(ChaosImpactError::VehicleJourneyAbsent(VehicleJourneyId { id: id.to_string() })),
    }
}

/// The trips, vehicle journey of `vjs` after vehicle journey, each with the dates of its
/// trips that meet `periods`, as `concerned_dates` finds them
pub open spec fn trips_meeting(base: BaseModel, vjs: Seq<usize>, periods: Seq<TimePeriod>) -> Seq<(usize, Date)>
    decreases vjs.len(),
{
    if vjs.len() == 0 {
        Seq::empty()
    } else {
        let vj = vjs.last();
        let days = concerned_days(periods);
        trips_meeting(base, vjs.drop_last(), periods) + days_meeting(base, vj as int, periods, days.0, days.1).map_values(
            |date: Date| (vj, date),
        )
    }
}

/// The trips of the vehicle journeys `vjs` that `periods` concern, as `trips_meeting` says
pub fn concerned_trips(base: &BaseModel, vjs: &[usize], periods: &TimePeriods) -> (r: Vec<(usize, Date)>)
    requires
        forall|i: int| 0 <= i < vjs@.len() ==> (#[trigger] vjs@[i]) < base.collections().vehicle_journeys@.len(),
        is_datetime(earliest_start_of(periods@) - MAX_SECONDS_IN_UTC_DAY),
        is_datetime(latest_end_of(periods@) + MAX_SECONDS_IN_UTC_DAY),
    ensures
        r@ == trips_meeting(*base, vjs@, periods@),
{
    let mut r: Vec<(usize, Date)> = Vec::new();
    let mut i: usize = 0;
    while i < vjs.len()
        invariant
            forall|j: int| 0 <= j < vjs@.len() ==> (#[trigger] vjs@[j]) < base.collections().vehicle_journeys@.len(),
            is_datetime(earliest_start_of(periods@) - MAX_SECONDS_IN_UTC_DAY),
            is_datetime(latest_end_of(periods@) + MAX_SECONDS_IN_UTC_DAY),
            i <= vjs@.len(),
            r@ == trips_meeting(*base, vjs@.take(i as int), periods@),
        decreases vjs@.len() - i,
    {
        let vj = vjs[i];
        let dates = concerned_dates(base, vj, periods);
        let ghost before = r@;
        let mut k: usize = 0;
        while k < dates.len()
            invariant
                k <= dates@.len(),
                r@ == before + dates@.take(k as int).map_values(|date: Date| (vj, date)),
            decreases dates@.len() - k,
        {
            r.push((vj, dates[k]));
            k += 1;
            assert(r@ =~= before + dates@.take(k as int).map_values(|date: Date| (vj, date)));
        }
        proof {
            let taken = vjs@.take(i + 1);
            assert(taken.drop_last() =~= vjs@.take(i as int));
            assert(taken.last() == vj);
            assert(dates@.take(k as int) =~= dates@);
        }
        i += 1;
    }
    assert(vjs@.take(i as int) =~= vjs@);
    r
}

/// The periods of an impact that fall in the period of the model: the intersection of each
/// of `impact_periods` with `model_period`, when there is one
pub open spec fn periods_within(impact_periods: Seq<TimePeriod>, model_period: (int, int)) -> Seq<(int, int)>
    decreases impact_periods.len(),
{
    if impact_periods.len() == 0 {
        Seq::empty()
    } else {
        let before = periods_within(impact_periods.drop_last(), model_period);
        let p = impact_periods.last()@;
        let start = if p.0 >= model_period.0 {
            p.0
        } else {
            model_period.0
        };
        let end = if p.1 <= model_period.1 {
            p.1
        } else {
            model_period.1
        };
        if start < end {
            before.push((start, end))
        } else {
            before
        }
    }
}

/// The periods during which an impact of application periods `impact_periods` applies to
/// the model of period `model_period`, as `periods_within` says
pub fn application_periods(impact_periods: &[TimePeriod], model_period: &TimePeriod) -> (r: Vec<TimePeriod>)
    ensures
        r@.map_values(|p: TimePeriod| p@) == periods_within(impact_periods@, model_period@),
{
    let mut r: Vec<TimePeriod> = Vec::new();
    let mut i: usize = 0;
    while i < impact_periods.len()
        invariant
            i <= impact_periods@.len(),
            r@.map_values(|p: TimePeriod| p@) == periods_within(impact_periods@.take(i as int), model_period@),
        decreases impact_periods@.len() - i,
    {
        let ghost before = r@;
        match intersection(&impact_periods[i], model_period) {
            Some(period) => {
                r.push(period);
                assert(r@.map_values(|p: TimePeriod| p@) =~= before.map_values(|p: TimePeriod| p@).push(period@));
            },
            None => {},
        }
        proof {
            let taken = impact_periods@.take(i + 1);
            assert(taken.drop_last() =~= impact_periods@.take(i as int));
            assert(taken.last() == impact_periods@[i as int]);
        }
        i += 1;
    }
    assert(impact_periods@.take(i as int) =~= impact_periods@);
    r
}

/// The vehicle journeys that a deleted object names, as `network_vehicle_journeys`,
/// `line_vehicle_journeys`, `route_vehicle_journeys` and `trip_vehicle_journeys` find them;
/// none for a stop area, a stop point or a section, whose trips are found by their stop
/// times
pub fn impacted_vehicle_journeys(base: &BaseModel, object: &Impacted) -> (r: Option<
    Result<Vec<usize>, ChaosImpactError>,
>)
    ensures
        match *object {
            Impacted::NetworkDeleted(network) => r matches Some(found) && (found is Err
                <==> !contains_id(base.collections().networks@, network.id@)) && (found matches Ok(vjs)
                ==> vjs@ == journeys_kept(
                |vj: int| on_network(base.collections(), vj, network.id@),
                base.collections().vehicle_journeys@.len(),
            )),
            Impacted::LineDeleted(line) => r matches Some(found) && (found is Err <==> !contains_id(
                base.collections().lines@,
                line.id@,
            )) && (found matches Ok(vjs) ==> vjs@ == journeys_kept(
                |vj: int| on_line(base.collections(), vj, line.id@),
                base.collections().vehicle_journeys@.len(),
            )),
            Impacted::RouteDeleted(route) => r matches Some(found) && (found is Err <==> !contains_id(
                base.collections().routes@,
                route.id@,
            )) && (found matches Ok(vjs) ==> vjs@ == journeys_kept(
                |vj: int| on_route(base.collections(), vj, route.id@),
                base.collections().vehicle_journeys@.len(),
            )),
            Impacted::BaseTripDeleted(trip) => r matches Some(found) && match index_of_id(
                base.collections().vehicle_journeys@,
                trip.id@,
            ) {
                Some(p) => found matches Ok(vjs) && vjs@ == seq![p as usize],
                None => found is Err,
            },
            _ => r is None,
        },
{
    match object {
        Impacted::NetworkDeleted(network) => Some(network_vehicle_journeys(base, network.id.as_str())),
        Impacted::LineDeleted(line) => Some(line_vehicle_journeys(base, line.id.as_str())),
        Impacted::RouteDeleted(route) => Some(route_vehicle_journeys(base, route.id.as_str())),
        Impacted::BaseTripDeleted(trip) => Some(trip_vehicle_journeys(base, trip.id.as_str())),
        _ => None,
    }
}

/// The vehicle journeys that an informed object names, as `impacted_vehicle_journeys` says
/// of the deleted objects of the same kind; none for a stop area or a stop point, whose
/// trips are found by their stop times
pub fn informed_vehicle_journeys(base: &BaseModel, object: &Informed) -> (r: Option<
    Result<Vec<usize>, ChaosImpactError>,
>)
    ensures
        match *object {
            Informed::Network(network) => r matches Some(found) && (found is Err <==> !contains_id(
                base.collections().networks@,
                network.id@,
            )) && (found matches Ok(vjs) ==> vjs@ == journeys_kept(
                |vj: int| on_network(base.collections(), vj, network.id@),
                base.collections().vehicle_journeys@.len(),
            )),
            Informed::Line(line) => r matches Some(found) && (found is Err <==> !contains_id(
                base.collections().lines@,
                line.id@,
            )) && (found matches Ok(vjs) ==> vjs@ == journeys_kept(
                |vj: int| on_line(base.collections(), vj, line.id@),
                base.collections().vehicle_journeys@.len(),
            )),
            Informed::Route(route) => r matches Some(found) && (found is Err <==> !contains_id(
                base.collections().routes@,
                route.id@,
            )) && (found matches Ok(vjs) ==> vjs@ == journeys_kept(
                |vj: int| on_route(base.collections(), vj, route.id@),
                base.collections().vehicle_journeys@.len(),
            )),
            Informed::Trip(trip) => r matches Some(found) && match index_of_id(
                base.collections().vehicle_journeys@,
                trip.id@,
            ) {
                Some(p) => found matches Ok(vjs) && vjs@ == seq![p as usize],
                None => found is Err,
            },
            _ => r is None,
        },
{
    match object {
        Informed::Network(network) => Some(network_vehicle_journeys(base, network.id.as_str())),
        Informed::Line(line) => Some(line_vehicle_journeys(base, line.id.as_str())),
        Informed::Route(route) => Some(route_vehicle_journeys(base, route.id.as_str())),
        Informed::Trip(trip) => Some(trip_vehicle_journeys(base, trip.id.as_str())),
        _ => None,
    }
}

/// What cancelling the alteration of a trip by an impact does
#[derive(Debug, Clone, Copy, PartialEq, Eq, Structural)]
pub enum CancelDecision {
    /// the trip is not linked to the impact: nothing is done
    Nothing,
    /// the trip is unlinked from the impact, and keeps its stop times
    UnlinkOnly,
    /// the trip is unlinked, and given back its base stop times: as a modification when it
    /// runs, as an addition otherwise; then the other impacts linked to it are applied again
    Restore { modify: bool },
}

/// What cancelling the alteration of a trip by an impact does, when the trip is linked to
/// that impact or not, has a real-time update, which takes precedence, or not, the impact
/// alters objects or only informs about them, the base schedule gives the stop times of the
/// trip or not, and the trip runs or not
pub open spec fn cancel_decision_of(
    linked: bool,
    has_real_time_update: bool,
    alters_objects: bool,
    has_base_stop_times: bool,
    is_present: bool,
) -> CancelDecision {
    if !linked {
        CancelDecision::Nothing
    } else if has_real_time_update || !alters_objects || !has_base_stop_times {
        CancelDecision::UnlinkOnly
    } else {
        CancelDecision::Restore { modify: is_present }
    }
}

/// What cancelling the alteration of a trip by an impact does, as `cancel_decision_of` says
pub fn cancel_decision(
    linked: bool,
    has_real_time_update: bool,
    alters_objects: bool,
    has_base_stop_times: bool,
    is_present: bool,
) -> (r: CancelDecision)
    ensures
        r == cancel_decision_of(linked, has_real_time_update, alters_objects, has_base_stop_times, is_present),
        r is Nothing <==> !linked,
        r is Restore <==> (linked && !has_real_time_update && alters_objects && has_base_stop_times),
        r matches CancelDecision::Restore { modify } ==> modify == is_present,
{
    if !linked {
        CancelDecision::Nothing
    } else if has_real_time_update || !alters_objects || !has_base_stop_times {
        CancelDecision::UnlinkOnly
    } else {
        CancelDecision::Restore { modify: is_present }
    }
}

/// Cancelling an alteration touches only a trip linked to the impact; it gives the trip its
/// base stop times back exactly when the impact alters objects, no real-time update takes
/// precedence and the base schedule has the stop times, as a modification of the trip when it
/// runs and as an addition otherwise; a linked trip is unlinked in any case.
pub proof fn lemma_cancel_decision(
    linked: bool,
    has_real_time_update: bool,
    alters_objects: bool,
    has_base_stop_times: bool,
    is_present: bool,
)
    ensures
        cancel_decision_of(linked, has_real_time_update, alters_objects, has_base_stop_times, is_present) is Nothing
            <==> !linked,
        cancel_decision_of(linked, has_real_time_update, alters_objects, has_base_stop_times, is_present) is Restore
            <==> (linked && !has_real_time_update && alters_objects && has_base_stop_times),
        cancel_decision_of(linked, has_real_time_update, alters_objects, has_base_stop_times, is_present) matches CancelDecision::Restore { modify }
            ==> modify == is_present,
{
}

/// What applying again an impact linked to a restored trip does to the trip
#[derive(Debug, Clone, Copy, PartialEq, Eq, Structural)]
pub enum Reapplication {
    /// the trip is deleted, when it runs
    DeleteIfPresent,
    /// the stop times of the trip at the stop points of a stop area or at a stop point are
    /// removed, when the data has that stop area or stop point
    RemoveStops,
}

/// What applying again the deleted object `object`, which is not a section, does to a
/// restored trip
pub open spec fn reapplication_of(object: Impacted) -> Reapplication {
    match object {
        Impacted::StopAreaDeleted(_) => Reapplication::RemoveStops,
        Impacted::StopPointDeleted(_) => Reapplication::RemoveStops,
        _ => Reapplication::DeleteIfPresent,
    }
}

/// What applying again the deleted object `object` does to a restored trip, as
/// `reapplication_of` says; a section is not handled
pub fn reapplication(object: &Impacted) -> (r: Reapplication)
    requires
        !(*object is LineSection),
        !(*object is RailSection),
    ensures
        r == reapplication_of(*object),
        r is RemoveStops <==> (*object is StopAreaDeleted || *object is StopPointDeleted),
        r is DeleteIfPresent <==> (*object is NetworkDeleted || *object is LineDeleted || *object is RouteDeleted
            || *object is BaseTripDeleted),
{
    match object {
        Impacted::StopAreaDeleted(_) => Reapplication::RemoveStops,
        Impacted::StopPointDeleted(_) => Reapplication::RemoveStops,
        _ => Reapplication::DeleteIfPresent,
    }
}

/// Applying again a deleted object to a restored trip does what applying it did: an object
/// whose trips are found by their stop times (a stop area or a stop point) removes the stop
/// times of the trip there, and keeps the rest of the trip; an object that names its vehicle
/// journeys (a network, a line, a route or a base trip), as `impacted_vehicle_journeys` finds
/// them, deletes the whole trip.
pub proof fn lemma_reapplication_as_applied(object: Impacted)
    requires
        !(object is LineSection),
        !(object is RailSection),
    ensures
        reapplication_of(object) is RemoveStops <==> (object is StopAreaDeleted || object is StopPointDeleted),
        reapplication_of(object) is DeleteIfPresent <==> (object is NetworkDeleted || object is LineDeleted
            || object is RouteDeleted || object is BaseTripDeleted),
{
}

/// One of `periods` contains the instant `t`
pub open spec fn in_periods(periods: Seq<TimePeriod>, t: int) -> bool {
    exists|i: int| 0 <= i < periods.len() && (#[trigger] periods[i])@.0 <= t < periods[i]@.1
}

/// The stop time `stop_time` stops at one of the stop points `closed`
pub open spec fn at_closed_stop(stop_time: BaseStopTime, closed: Seq<usize>) -> bool {
    closed.contains(stop_time.stop_point_idx)
}

/// On a day that starts at `day_start`, the stop time `stop_time` stops at one of the stop
/// points `closed`, and a traveler boards or debarks there during one of `periods`
pub open spec fn closed_stop_time(
    stop_time: BaseStopTime,
    closed: Seq<usize>,
    day_start: int,
    periods: Seq<TimePeriod>,
) -> bool {
    &&& at_closed_stop(stop_time, closed)
    &&& (in_periods(periods, day_start + stop_time.departure_time - stop_time.boarding_duration)
        || in_periods(periods, day_start + stop_time.arrival_time + stop_time.alighting_duration))
}

/// The trip of the vehicle journey `vj` on the day of number `day` meets one of `periods`,
/// and one of its stop times is closed that day
pub open spec fn trip_closed(base: BaseModel, vj: int, day: int, closed: Seq<usize>, periods: Seq<TimePeriod>) -> bool {
    let date = Date { days_from_ce: day as i32 };
    let stop_times = base.collections().vehicle_journeys@[vj].stop_times@;
    &&& trip_meets(base, vj, day, periods)
    &&& trip_day_start(base.collections(), vj, date) matches Some(start) && exists|i: int|
        0 <= i < stop_times.len() && closed_stop_time(#[trigger] stop_times[i], closed, start, periods)
}

/// The dates, among the `n` days from the day of number `first` on, on which the trip of
/// the vehicle journey `vj` has a stop time closed by the closure of the stop points
/// `closed` during `periods`
pub open spec fn closure_days(
    base: BaseModel,
    vj: int,
    closed: Seq<usize>,
    periods: Seq<TimePeriod>,
    first: int,
    n: nat,
) -> Seq<Date>
    decreases n,
{
    if n == 0 {
        Seq::empty()
    } else {
        let before = closure_days(base, vj, closed, periods, first, (n - 1) as nat);
        let day = first + n - 1;
        if trip_closed(base, vj, day, closed, periods) {
            before.push(Date { days_from_ce: day as i32 })
        } else {
            before
        }
    }
}

/// The stop times of the vehicle journey `vj` can all be read, and one of them stops at
/// one of the stop points `closed`
pub open spec fn touches_closed(base: BaseModel, vj: int, closed: Seq<usize>) -> bool {
    let stop_times = base.collections().vehicle_journeys@[vj].stop_times@;
    &&& all_readable(stop_times)
    &&& exists|i: int| 0 <= i < stop_times.len() && at_closed_stop(#[trigger] stop_times[i], closed)
}

/// The trips that the closure of the stop points `closed` during `periods` concerns, among
/// those of the first `n` vehicle journeys, vehicle journey after vehicle journey and date
/// after date
pub open spec fn closure_trips(base: BaseModel, closed: Seq<usize>, periods: Seq<TimePeriod>, n: nat) -> Seq<
    (usize, Date),
>
    decreases n,
{
    if n == 0 {
        Seq::empty()
    } else {
        let vj = n - 1;
        let before = closure_trips(base, closed, periods, (n - 1) as nat);
        let days = concerned_days(periods);
        if touches_closed(base, vj, closed) {
            before + closure_days(base, vj, closed, periods, days.0, days.1).map_values(
                |date: Date| (vj as usize, date),
            )
        } else {
            before
        }
    }
}

/// `true` when `closed` holds the stop point `stop_point`
fn lists_stop_point(closed: &[usize], stop_point: usize) -> (r: bool)
    ensures
        r == closed@.contains(stop_point),
{
    let mut i: usize = 0;
    while i < closed.len()
        invariant
            i <= closed@.len(),
            forall|j: int| 0 <= j < i ==> closed@[j] != stop_point,
        decreases closed@.len() - i,
    {
        if closed[i] == stop_point {
            assert(closed@[i as int] == stop_point);
            return true;
        }
        i += 1;
    }
    false
}

/// `true` when the stop time read as `read` stops at one of the stop points `closed`
fn read_at_closed_stop(read: &ReadStopTime, closed: &[usize]) -> (r: bool)
    ensures
        forall|stop_time: BaseStopTime| reads_as(stop_time, *read) ==> r == at_closed_stop(stop_time, closed@),
{
    match read.stop {
        StopPointIdx::Base(stop_point) => lists_stop_point(closed, stop_point),
        StopPointIdx::New(_) => false,
    }
}

/// `true` when, on a day that starts at `day_start`, the stop time read as `read` is closed
/// by the closure of the stop points `closed` during `periods`
fn read_closed(read: &ReadStopTime, closed: &[usize], day_start: i64, periods: &TimePeriods) -> (r: bool)
    requires
        -0x4000_0000_0000_0000 <= day_start <= 0x4000_0000_0000_0000,
    ensures
        forall|stop_time: BaseStopTime|
            reads_as(stop_time, *read) ==> r == closed_stop_time(stop_time, closed@, day_start as int, periods@),
{
    if !read_at_closed_stop(read, closed) {
        return false;
    }
    let board: i64 = day_start + read.board_time.seconds() as i64;
    let debark: i64 = day_start + read.debark_time.seconds() as i64;
    periods.contains(&board) || periods.contains(&debark)
}

/// `true` when one of the stop times read as `read` stops at one of the stop points
/// `closed`
fn any_at_closed_stop(read: &[ReadStopTime], closed: &[usize]) -> (r: bool)
    ensures
        forall|stop_times: Seq<BaseStopTime>|
            reads_all(stop_times, read@) ==> (r <==> exists|i: int|
                0 <= i < stop_times.len() && at_closed_stop(#[trigger] stop_times[i], closed@)),
{
    let mut k: usize = 0;
    while k < read.len()
        invariant
            k <= read@.len(),
            forall|stop_times: Seq<BaseStopTime>, j: int|
                reads_all(stop_times, read@) && 0 <= j < k ==> !at_closed_stop(#[trigger] stop_times[j], closed@),
        decreases read@.len() - k,
    {
        if read_at_closed_stop(&read[k], closed) {
            proof {
                assert forall|stop_times: Seq<BaseStopTime>| reads_all(stop_times, read@) implies exists|i: int|
                    0 <= i < stop_times.len() && at_closed_stop(#[trigger] stop_times[i], closed@) by {
                    assert(reads_as(stop_times[k as int], read@[k as int]));
                }
            }
            return true;
        }
        proof {
            assert forall|stop_times: Seq<BaseStopTime>, j: int|
                reads_all(stop_times, read@) && 0 <= j < k + 1 implies !at_closed_stop(#[trigger] stop_times[j], closed@) by {
                if j == k {
                    assert(reads_as(stop_times[k as int], read@[k as int]));
                }
            }
        }
        k += 1;
    }
    false
}

/// `true` when, on a day that starts at `day_start`, one of the stop times read as `read`
/// is closed by the closure of the stop points `closed` during `periods`
fn any_closed(read: &[ReadStopTime], closed: &[usize], day_start: i64, periods: &TimePeriods) -> (r: bool)
    requires
        -0x4000_0000_0000_0000 <= day_start <= 0x4000_0000_0000_0000,
    ensures
        forall|stop_times: Seq<BaseStopTime>|
            reads_all(stop_times, read@) ==> (r <==> exists|i: int|
                0 <= i < stop_times.len() && closed_stop_time(
                    #[trigger] stop_times[i],
                    closed@,
                    day_start as int,
                    periods@,
                )),
{
    let mut k: usize = 0;
    while k < read.len()
        invariant
            k <= read@.len(),
            -0x4000_0000_0000_0000 <= day_start <= 0x4000_0000_0000_0000,
            forall|stop_times: Seq<BaseStopTime>, j: int|
                reads_all(stop_times, read@) && 0 <= j < k ==> !closed_stop_time(
                    #[trigger] stop_times[j],
                    closed@,
                    day_start as int,
                    periods@,
                ),
        decreases read@.len() - k,
    {
        if read_closed(&read[k], closed, day_start, periods) {
            proof {
                assert forall|stop_times: Seq<BaseStopTime>| reads_all(stop_times, read@) implies exists|i: int|
                    0 <= i < stop_times.len() && closed_stop_time(
                        #[trigger] stop_times[i],
                        closed@,
                        day_start as int,
                        periods@,
                    ) by {
                    assert(reads_as(stop_times[k as int], read@[k as int]));
                }
            }
            return true;
        }
        proof {
            assert forall|stop_times: Seq<BaseStopTime>, j: int|
                reads_all(stop_times, read@) && 0 <= j < k + 1 implies !closed_stop_time(
                    #[trigger] stop_times[j],
                    closed@,
                    day_start as int,
                    periods@,
                ) by {
                if j == k {
                    assert(reads_as(stop_times[k as int], read@[k as int]));
                }
            }
        }
        k += 1;
    }
    false
}

/// The dates that `periods` may concern, in order, on which the trip of the vehicle
/// journey `vj`, whose stop times read as `read`, has a stop time closed by the closure of
/// the stop points `closed` during `periods`, as `closure_days` says
pub fn closure_dates(
    base: &BaseModel,
    vj: usize,
    read: &[ReadStopTime],
    closed: &[usize],
    periods: &TimePeriods,
) -> (r: Vec<Date>)
    requires
        vj < base.collections().vehicle_journeys@.len(),
        reads_all(base.collections().vehicle_journeys@[vj as int].stop_times@, read@),
        is_datetime(earliest_start_of(periods@) - MAX_SECONDS_IN_UTC_DAY),
        is_datetime(latest_end_of(periods@) + MAX_SECONDS_IN_UTC_DAY),
    ensures
        r@ == closure_days(
            *base,
            vj as int,
            closed@,
            periods@,
            concerned_days(periods@).0,
            concerned_days(periods@).1,
        ),
{
    let ghost first = concerned_days(periods@).0;
    let ghost last = date_days_of(latest_end_of(periods@) + MAX_SECONDS_IN_UTC_DAY);
    let ghost stop_times = base.collections().vehicle_journeys@[vj as int].stop_times@;
    let mut iter = periods.dates_possibly_concerned();
    let mut r: Vec<Date> = Vec::new();
    let ghost mut k: int = 0;
    let mut current = iter.next();
    while current.is_some()
        invariant
            vj < base.collections().vehicle_journeys@.len(),
            stop_times == base.collections().vehicle_journeys@[vj as int].stop_times@,
            reads_all(stop_times, read@),
            first == concerned_days(periods@).0,
            last == date_days_of(latest_end_of(periods@) + MAX_SECONDS_IN_UTC_DAY),
            last <= MAX_DATE_DAYS,
            iter@.1 == last,
            0 <= k,
            first <= last ==> first + k <= last + 1,
            first > last ==> k == 0,
            match current {
                Some(date) => date.days_from_ce == first + k && first + k <= last,
                None => first + k > last,
            },
            iter@.0 matches Some(x) ==> x == first + k + 1,
            first + k + 1 <= last ==> iter@.0 == Some(first + k + 1),
            r@ == closure_days(*base, vj as int, closed@, periods@, first, k as nat),
        decreases last - first - k + 1,
    {
        let date = current.unwrap();
        let meets = match base.checked_trip_time_period(vj, &date) {
            Some(Some(period)) => periods.intersects(&period),
            _ => false,
        };
        let concerned = if meets {
            match base.day_start(vj, &date) {
                Some(start) => any_closed(read, closed, start, periods),
                None => false,
            }
        } else {
            false
        };
        proof {
            assert(Date { days_from_ce: (first + k) as i32 } == date);
            if meets {
                assert(trip_meets(*base, vj as int, first + k, periods@));
            }
        }
        if concerned {
            r.push(date);
        }
        proof {
            k = k + 1;
        }
        current = iter.next();
    }
    proof {
        if first <= last {
            assert(k == last - first + 1);
        } else {
            assert(k == 0);
        }
    }
    r
}

/// The trips that the closure of the stop points `closed` during `periods` concerns, as
/// `closure_trips` says: the trips of the vehicle journeys whose stop times can be read and
/// stop at one of `closed`, on the dates on which one of their stop times at a closed stop
/// point is boarded or debarked during one of `periods`
pub fn trips_with_closed_stops(base: &BaseModel, closed: &[usize], periods: &TimePeriods) -> (r: Vec<
    (usize, Date),
>)
    requires
        is_datetime(earliest_start_of(periods@) - MAX_SECONDS_IN_UTC_DAY),
        is_datetime(latest_end_of(periods@) + MAX_SECONDS_IN_UTC_DAY),
    ensures
        r@ == closure_trips(*base, closed@, periods@, base.collections().vehicle_journeys@.len()),
{
    let nb_of_vehicle_journeys = base.nb_of_vehicle_journeys();
    let mut r: Vec<(usize, Date)> = Vec::new();
    let mut vj: usize = 0;
    while vj < nb_of_vehicle_journeys
        invariant
            nb_of_vehicle_journeys == base.collections().vehicle_journeys@.len(),
            is_datetime(earliest_start_of(periods@) - MAX_SECONDS_IN_UTC_DAY),
            is_datetime(latest_end_of(periods@) + MAX_SECONDS_IN_UTC_DAY),
            vj <= nb_of_vehicle_journeys,
            r@ == closure_trips(*base, closed@, periods@, vj as nat),
        decreases nb_of_vehicle_journeys - vj,
    {
        let ghost stop_times = base.collections().vehicle_journeys@[vj as int].stop_times@;
        match base.stop_times(vj) {
            Ok(read) => {
                assert(reads_all(stop_times, read@));
                assert(all_readable(stop_times));
                if any_at_closed_stop(&read, closed) {
                    let dates = closure_dates(base, vj, &read, closed, periods);
                    let ghost before = r@;
                    let mut k: usize = 0;
                    while k < dates.len()
                        invariant
                            k <= dates@.len(),
                            r@ == before + dates@.take(k as int).map_values(|date: Date| (vj, date)),
                        decreases dates@.len() - k,
                    {
                        r.push((vj, dates[k]));
                        k += 1;
                        assert(r@ =~= before + dates@.take(k as int).map_values(|date: Date| (vj, date)));
                    }
                    assert(dates@.take(k as int) =~= dates@);
                    assert(touches_closed(*base, vj as int, closed@));
                } else {
                    assert(!touches_closed(*base, vj as int, closed@));
                }
            },
            Err(_) => {
                assert(!all_readable(stop_times));
            },
        }
        vj += 1;
    }
    r
}

/// On a day that starts at `day_start`, the stop time `stop_time` of a trip stops at one of
/// the stop points `closed`, and a traveler boards (at its departure time) or debarks (at its
/// arrival time) there during one of `periods`
pub open spec fn closed_trip_stop_time(
    stop_time: TripStopTime,
    closed: Seq<usize>,
    day_start: int,
    periods: Seq<TimePeriod>,
) -> bool {
    &&& stop_time.stop matches StopPointIdx::Base(stop_point) && closed.contains(stop_point)
    &&& (in_periods(periods, day_start + stop_time.departure_time@) || in_periods(
        periods,
        day_start + stop_time.arrival_time@,
    ))
}

/// The stop times of a trip, on a day that starts at `day_start`, once those closed by the
/// closure of the stop points `closed` during `periods` are taken out; none when no stop
/// time of the trip is closed, and there is nothing to change
pub fn without_closed_stop_times(
    stop_times: &[TripStopTime],
    closed: &[usize],
    day_start: i64,
    periods: &TimePeriods,
) -> (r: Option<Vec<TripStopTime>>)
    requires
        -0x4000_0000_0000_0000 <= day_start <= 0x4000_0000_0000_0000,
    ensures
        r is None <==> forall|i: int|
            0 <= i < stop_times@.len() ==> !closed_trip_stop_time(
                #[trigger] stop_times@[i],
                closed@,
                day_start as int,
                periods@,
            ),
        r matches Some(kept) ==> kept@ == stop_times@.filter(
            |stop_time: TripStopTime| !closed_trip_stop_time(stop_time, closed@, day_start as int, periods@),
        ),
{
    let ghost keep = |stop_time: TripStopTime| !closed_trip_stop_time(stop_time, closed@, day_start as int, periods@);
    let mut kept: Vec<TripStopTime> = Vec::new();
    let mut any: bool = false;
    let mut i: usize = 0;
    while i < stop_times.len()
        invariant
            i <= stop_times@.len(),
            -0x4000_0000_0000_0000 <= day_start <= 0x4000_0000_0000_0000,
            keep == (|stop_time: TripStopTime| !closed_trip_stop_time(stop_time, closed@, day_start as int, periods@)),
            kept@ == stop_times@.take(i as int).filter(keep),
            any <==> exists|j: int| 0 <= j < i && !keep(#[trigger] stop_times@[j]),
        decreases stop_times@.len() - i,
    {
        let stop_time = stop_times[i];
        let is_closed = match stop_time.stop {
            StopPointIdx::Base(stop_point) => if lists_stop_point(closed, stop_point) {
                let board: i64 = day_start + stop_time.departure_time.seconds() as i64;
                let debark: i64 = day_start + stop_time.arrival_time.seconds() as i64;
                periods.contains(&board) || periods.contains(&debark)
            } else {
                false
            },
            StopPointIdx::New(_) => false,
        };
        proof {
            lemma_filter_step(stop_times@, i as int, keep);
        }
        if is_closed {
            any = true;
        } else {
            kept.push(stop_time);
        }
        i += 1;
    }
    assert(stop_times@.take(i as int) =~= stop_times@);
    if any {
        Some(kept)
    } else {
        None
    }
}

/// The trip of the base vehicle journey `vj` on `date` runs: its last version, when a
/// real-time update gave one, does not delete it; without one, its calendar holds the date
pub open spec fn base_trip_present(real_time: RealTimeModel, base: BaseModel, vj: int, date: Date) -> bool {
    match real_time.base_version(vj as nat, date.days_from_ce as int) {
        Some(version) => !(version.trip_data is Deleted),
        None => trip_exists_in(base.collections(), vj, date),
    }
}

/// What an impact that asks for `action` on the vehicle journeys `vjs` during `periods`
/// does: each trip of them that meets `periods`, in the order of `trips_meeting`, with the
/// action taken on it, a real-time version of the trip taking precedence over an alteration
pub open spec fn impact_trip_actions_of(
    real_time: RealTimeModel,
    base: BaseModel,
    vjs: Seq<usize>,
    periods: Seq<TimePeriod>,
    action: ChaosAction,
) -> Seq<(usize, Date, TripAction)> {
    trips_meeting(base, vjs, periods).map_values(
        |trip: (usize, Date)|
            (
                trip.0,
                trip.1,
                trip_action_of(
                    action,
                    real_time.base_version(trip.0 as nat, trip.1.days_from_ce as int) is Some,
                    base_trip_present(real_time, base, trip.0 as int, trip.1),
                ),
            ),
    )
}

/// The trips that an impact asking for `action` on the vehicle journeys `vjs` concerns
/// during `periods`, each with what is done with it, as `impact_trip_actions_of` says
pub fn impact_trip_actions(
    real_time: &RealTimeModel,
    base: &BaseModel,
    vjs: &[usize],
    periods: &TimePeriods,
    action: ChaosAction,
) -> (r: Vec<(usize, Date, TripAction)>)
    requires
        real_time.wf(),
        forall|i: int| 0 <= i < vjs@.len() ==> (#[trigger] vjs@[i]) < base.collections().vehicle_journeys@.len(),
        is_datetime(earliest_start_of(periods@) - MAX_SECONDS_IN_UTC_DAY),
        is_datetime(latest_end_of(periods@) + MAX_SECONDS_IN_UTC_DAY),
    ensures
        r@ == impact_trip_actions_of(*real_time, *base, vjs@, periods@, action),
{
    let trips = concerned_trips(base, vjs, periods);
    proof {
        lemma_trips_meeting_in_range(*base, vjs@, periods@);
    }
    let mut r: Vec<(usize, Date, TripAction)> = Vec::new();
    let mut k: usize = 0;
    while k < trips.len()
        invariant
            real_time.wf(),
            k <= trips@.len(),
            trips@ == trips_meeting(*base, vjs@, periods@),
            forall|i: int| 0 <= i < trips@.len() ==> (#[trigger] trips@[i]).0 < base.collections().vehicle_journeys@.len(),
            r@ == impact_trip_actions_of(*real_time, *base, vjs@, periods@, action).take(k as int),
        decreases trips@.len() - k,
    {
        let (vj, date) = trips[k];
        let version = real_time.base_vehicle_journey_last_version(vj, &date);
        let has_update = version.is_some();
        let present = match version {
            Some(data) => !matches!(data, TripData::Deleted()),
            None => base.trip_exists(vj, date),
        };
        r.push((vj, date, dispatch(action, has_update, present)));
        k += 1;
        assert(r@ =~= impact_trip_actions_of(*real_time, *base, vjs@, periods@, action).take(k as int));
    }
    assert(impact_trip_actions_of(*real_time, *base, vjs@, periods@, action).take(k as int) =~= impact_trip_actions_of(
        *real_time,
        *base,
        vjs@,
        periods@,
        action,
    ));
    r
}

/// The trips that meet periods are trips of the vehicle journeys given.
proof fn lemma_trips_meeting_in_range(base: BaseModel, vjs: Seq<usize>, periods: Seq<TimePeriod>)
    requires
        forall|i: int| 0 <= i < vjs.len() ==> (#[trigger] vjs[i]) < base.collections().vehicle_journeys@.len(),
    ensures
        forall|i: int|
            0 <= i < trips_meeting(base, vjs, periods).len() ==> (#[trigger] trips_meeting(base, vjs, periods)[i]).0
                < base.collections().vehicle_journeys@.len(),
    decreases vjs.len(),
{
    if vjs.len() > 0 {
        let rest = vjs.drop_last();
        assert forall|i: int| 0 <= i < rest.len() implies (#[trigger] rest[i]) < base.collections().vehicle_journeys@.len() by {
            assert(rest[i] == vjs[i]);
        }
        lemma_trips_meeting_in_range(base, rest, periods);
        assert(vjs.last() == vjs[vjs.len() - 1]);
        let before = trips_meeting(base, rest, periods);
        let days = concerned_days(periods);
        let vj = vjs.last();
        let mapped = days_meeting(base, vj as int, periods, days.0, days.1).map_values(|date: Date| (vj, date));
        let all = trips_meeting(base, vjs, periods);
        assert(all == before + mapped);
        assert forall|i: int| 0 <= i < all.len() implies (#[trigger] all[i]).0
            < base.collections().vehicle_journeys@.len() by {
            if i < before.len() {
                assert(all[i] == before[i]);
            } else {
                assert(all[i] == mapped[i - before.len()]);
            }
        }
    }
}

} // verus!
