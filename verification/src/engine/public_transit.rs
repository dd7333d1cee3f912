use vstd::prelude::*;

verus! {

/// A public transit network where missions are sequences of stops.
///
/// This trait is meant to be implemented by users.
pub trait PublicTransit {
    /// A point where a vehicle can be boarded into or debarked from
    type Stop: Clone;

    /// A `Mission` is an ordered sequence of pairwise distinct `Stop`s
    type Mission: Clone;

    /// A trip of a vehicle along a `Mission`
    type Trip: Clone;

    /// A possible departure of a journey
    type Departure: Clone;

    /// A foot transfer
    type Transfer: Clone;

    /// Stores data used to determine if a journey is better than another
    type Criteria: Clone;

    /// An upper bound on the number of stops
    spec fn spec_nb_of_stops(&self) -> usize;

    /// An upper bound on the number of missions
    spec fn spec_nb_of_missions(&self) -> usize;

    /// Returns `true` if `upstream` is positionned strictly before `downstream` in `mission`
    fn is_upstream(&self, upstream: &Self::Stop, downstream: &Self::Stop, mission: &Self::Mission) -> bool;

    /// Returns `Some(next_stop)` if `next_stop` is after `stop` on `mission`,
    /// and `None` if `stop` is the last on `mission`
    fn next_on_mission(&self, stop: &Self::Stop, mission: &Self::Mission) -> Option<Self::Stop>;

    /// Returns the `Mission` that `trip` belongs to.
    fn mission_of(&self, trip: &Self::Trip) -> Self::Mission;

    /// Returns `true` if `lower` is lower or equal to `upper`
    fn is_lower(&self, lower: &Self::Criteria, upper: &Self::Criteria) -> bool;

    /// Returns `Some(arrival_criteria)` if `trip` can be boarded at `stop` with `waiting_criteria`
    fn board_and_ride(
        &self,
        stop: &Self::Stop,
        trip: &Self::Trip,
        waiting_criteria: &Self::Criteria,
    ) -> Option<Self::Criteria>;

    /// Returns the best trip of `mission` to board at `stop` with `waiting_criteria`
    fn best_trip_to_board(
        &self,
        stop: &Self::Stop,
        mission: &Self::Mission,
        waiting_criteria: &Self::Criteria,
    ) -> Option<(Self::Trip, Self::Criteria)>;

    /// Returns the criteria obtained by debarking from `trip` at `stop`
    fn debark(&self, trip: &Self::Trip, stop: &Self::Stop, onboard_criteria: &Self::Criteria) -> Self::Criteria;

    /// Returns the criteria obtained when riding `trip` from `stop` to the next stop
    fn ride(&self, trip: &Self::Trip, stop: &Self::Stop, criteria: &Self::Criteria) -> Self::Criteria;

    /// Performs `transfer` from `from_stop` with `criteria`
    fn transfer(
        &self,
        from_stop: &Self::Stop,
        transfer: &Self::Transfer,
        criteria: &Self::Criteria,
    ) -> (Self::Stop, Self::Criteria);

    /// Returns the `Stop` at which this departure occurs along with the initial `Criteria`
    fn depart(&self, departure: &Self::Departure) -> (Self::Stop, Self::Criteria);

    /// Returns None if destination is not reachable from `stop`
    fn journey_arrival(&self, stop: &Self::Stop, criteria: &Self::Criteria) -> Option<Self::Criteria>;

    /// An upper bound on the total number of `Stop`s
    fn nb_of_stops(&self) -> (r: usize)
        ensures
            r == self.spec_nb_of_stops(),
    ;

    /// Returns an usize between 0 and nb_of_stops(), different for different stops
    fn stop_id(&self, stop: &Self::Stop) -> (r: usize)
        ensures
            r < self.spec_nb_of_stops(),
    ;

    /// An upper bound on the total number of `Mission`s
    fn nb_of_missions(&self) -> (r: usize)
        ensures
            r == self.spec_nb_of_missions(),
    ;

    /// Returns an usize between 0 and nb_of_missions(), different for different missions
    fn mission_id(&self, mission: &Self::Mission) -> (r: usize)
        ensures
            r < self.spec_nb_of_missions(),
    ;
}

/// The enumerations of a public transit network where missions are sequences of stops
pub trait PublicTransitIters: PublicTransit {
    /// All the `Mission`s that can be boarded at `stop`
    fn boardable_missions_at(&self, stop: &Self::Stop) -> Vec<Self::Mission>;

    /// All possible departures of a journey
    fn departures(&self) -> Vec<Self::Departure>;

    /// All `Transfer`s that can be taken at `from_stop`
    fn transfers_at(&self, from_stop: &Self::Stop) -> Vec<Self::Transfer>;

    /// All `Trip`s belonging to `mission`
    fn trips_of(&self, mission: &Self::Mission) -> Vec<Self::Trip>;
}

} // verus!
