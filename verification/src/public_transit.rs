use vstd::prelude::*;

verus! {

/// A public transit network, seen through the criteria that a traveler wants to optimize.
///
/// This trait is meant to be implemented by users of the engine. The `spec`
/// functions give a mathematical name to what the corresponding executable
/// methods compute, and the contracts that use this trait are stated over them.
pub trait PublicTransit {
    /// A location where a vehicle can be boarded into or debarked from
    type Stop: Clone;

    /// A `Mission` is an ordered sequence of `Position`
    type Mission: Clone;

    /// Identify a point along a `Mission`
    type Position: Clone;

    /// A trip of a vehicle along a `Mission`
    type Trip: Clone;

    /// Identify a foot transfer between two `Stop`s
    type Transfer: Clone;

    /// Identify a possible departure of a journey
    type Departure: Clone;

    /// Identify a possible arrival of a journey
    type Arrival: Clone;

    /// Stores data used to determine if a journey is better than another
    type Criteria: Clone;

    /// `true` if `lower` is better than or equivalent to `upper`
    spec fn spec_is_lower(&self, lower: Self::Criteria, upper: Self::Criteria) -> bool;

    /// An upper bound on the number of stops
    spec fn spec_nb_of_stops(&self) -> usize;

    /// Returns `true` if `upstream` is positionned strictly before `downstream` in `mission`.
    fn is_upstream(
        &self,
        upstream: &Self::Position,
        downstream: &Self::Position,
        mission: &Self::Mission,
    ) -> bool;

    /// Returns `Some(next_position)` if `next_position` is after `position` on `mission`,
    /// and `None` if `position` is the last on `mission`.
    fn next_on_mission(
        &self,
        position: &Self::Position,
        mission: &Self::Mission,
    ) -> Option<Self::Position>;

    /// Returns the `Mission` that `trip` belongs to.
    fn mission_of(&self, trip: &Self::Trip) -> Self::Mission;

    /// Returns the `Stop` at `position` in `mission`
    fn stop_of(&self, position: &Self::Position, mission: &Self::Mission) -> Self::Stop;

    /// Returns `true` if `lower` is better or equivalent to `upper`
    fn is_lower(&self, lower: &Self::Criteria, upper: &Self::Criteria) -> (r: bool)
        ensures
            r == self.spec_is_lower(*lower, *upper),
    ;

    /// Returns `false` when `criteria` corresponds to an invalid journey.
    fn is_valid(&self, criteria: &Self::Criteria) -> bool;

    /// Returns `Some(arrival_criteria)` if `trip` can be boarded when being at `position`
    /// with `waiting_criteria`, riding it until the next stop.
    fn board_and_ride(
        &self,
        position: &Self::Position,
        trip: &Self::Trip,
        waiting_criteria: &Self::Criteria,
    ) -> Option<Self::Criteria>;

    /// Returns `Some((best_trip, best_crit))` where `best_trip` is the best `Trip` of `mission`
    /// that can be boarded while being at `position` with `waiting_criteria`.
    fn best_trip_to_board(
        &self,
        position: &Self::Position,
        mission: &Self::Mission,
        waiting_criteria: &Self::Criteria,
    ) -> Option<(Self::Trip, Self::Criteria)>;

    /// Returns `Some(debarked_criteria)` obtained by debarking from `trip` at `position`.
    fn debark(
        &self,
        trip: &Self::Trip,
        position: &Self::Position,
        onboard_criteria: &Self::Criteria,
    ) -> Option<Self::Criteria>;

    /// Returns the criteria obtained when riding along `trip` to the next position.
    fn ride(
        &self,
        trip: &Self::Trip,
        position: &Self::Position,
        criteria: &Self::Criteria,
    ) -> Self::Criteria;

    /// Performs `transfer` when being at `from_stop` with `criteria`.
    fn transfer(
        &self,
        from_stop: &Self::Stop,
        transfer: &Self::Transfer,
        criteria: &Self::Criteria,
    ) -> (Self::Stop, Self::Criteria);

    /// Returns the `Stop` at which this departure occurs along with the initial `Criteria`
    fn depart(&self, departure: &Self::Departure) -> (Self::Stop, Self::Criteria);

    /// The stop at which this arrival can be made
    fn arrival_stop(&self, arrival: &Self::Arrival) -> Self::Stop;

    /// Returns the criteria obtained after performing `arrival` with `criteria`.
    fn arrive(&self, arrival: &Self::Arrival, criteria: &Self::Criteria) -> Self::Criteria;

    /// An upper bound on the total number of `Stop`s.
    fn nb_of_stops(&self) -> (r: usize)
        ensures
            r == self.spec_nb_of_stops(),
    ;

    /// Returns an usize between 0 and nb_of_stops().
    fn stop_id(&self, stop: &Self::Stop) -> (r: usize)
        ensures
            r < self.spec_nb_of_stops(),
    ;
}

/// The enumerations of a public transit network
pub trait PublicTransitIters: PublicTransit {
    /// All the `Mission`s that can be boarded at `stop`, with the `Position` of `stop` on each.
    fn boardable_missions_at(&self, stop: &Self::Stop) -> Vec<(Self::Mission, Self::Position)>;

    /// All possible departures of a journey
    fn departures(&self) -> Vec<Self::Departure>;

    /// All `Transfer`s that can be taken at `from_stop`
    fn transfers_at(&self, from_stop: &Self::Stop) -> Vec<Self::Transfer>;

    /// All `Trip`s belonging to `mission`
    fn trips_of(&self, mission: &Self::Mission) -> Vec<Self::Trip>;

    /// All possible arrivals of a journey
    fn arrivals(&self) -> Vec<Self::Arrival>;
}

/// The first vehicle leg of a journey
pub struct DepartureLeg<PT: PublicTransit> {
    pub departure: PT::Departure,
    pub trip: PT::Trip,
    pub board_position: PT::Position,
    pub debark_position: PT::Position,
}

/// A vehicle leg of a journey reached by a transfer
pub struct ConnectionLeg<PT: PublicTransit> {
    pub transfer: PT::Transfer,
    pub trip: PT::Trip,
    pub board_position: PT::Position,
    pub debark_position: PT::Position,
}

/// A complete journey
pub struct Journey<PT: PublicTransit> {
    pub departure_leg: DepartureLeg<PT>,
    pub connection_legs: Vec<ConnectionLeg<PT>>,
    pub arrival: PT::Arrival,
    pub criteria_at_arrival: PT::Criteria,
}

} // verus!
