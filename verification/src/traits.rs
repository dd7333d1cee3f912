use vstd::prelude::*;

verus! {

/// The types that a multicriteria public transit request works with.
pub trait RequestTypes {
    /// A location where a vehicle can be boarded into or debarked from
    type Stop: Clone;

    /// A `Mission` is an ordered sequence of `Position`
    type Mission: Clone;

    /// Identify a point along a `Mission`
    type Position: Clone;

    /// A trip of a vehicle along a `Mission`
    type Trip: Clone;

    /// Identify a foot transfer between two `Stop`s
    type Transfer: Clone;

    /// Identify a possible departure of a journey
    type Departure: Clone;

    /// Identify a possible arrival of a journey
    type Arrival: Clone;

    /// Stores data used to determine if a journey is better than another
    type Criteria: Clone;
}

/// A request to the engine: the public transit network seen through the criteria
/// that the traveler wants to optimize.
///
/// This trait is meant to be implemented by users of the engine. The `spec`
/// functions give a mathematical name to what the corresponding executable
/// methods compute, and the engine's contracts are stated over those names.
pub trait Request: RequestTypes {
    /// `true` if `lower` is better than or equivalent to `upper`
    spec fn spec_is_lower(&self, lower: Self::Criteria, upper: Self::Criteria) -> bool;

    /// `true` if a journey with criteria `upper` can be discarded because of `lower`
    spec fn spec_can_be_discarded(&self, upper: Self::Criteria, lower: Self::Criteria) -> bool;

    /// `false` when the criteria corresponds to a journey that must not be kept
    spec fn spec_is_valid(&self, criteria: Self::Criteria) -> bool;

    /// The number of positions that come after `position` on `mission`
    spec fn spec_nb_of_positions_after(&self, position: Self::Position, mission: Self::Mission) -> usize;

    /// An upper bound on the number of stops
    spec fn spec_nb_of_stops(&self) -> usize;

    /// An upper bound on the number of missions
    spec fn spec_nb_of_missions(&self) -> usize;

    /// The id of `stop`
    spec fn spec_stop_id(&self, stop: Self::Stop) -> usize;

    /// The id of `mission`
    spec fn spec_mission_id(&self, mission: Self::Mission) -> usize;

    /// The position after `position` on `mission`, if there is one
    spec fn spec_next_on_mission(&self, position: Self::Position, mission: Self::Mission) -> Option<Self::Position>;

    /// The stop at `position` on `mission`
    spec fn spec_stop_of(&self, position: Self::Position, mission: Self::Mission) -> Self::Stop;

    /// The criteria obtained by debarking from `trip` at `position` with
    /// `onboard_criteria`, if one can debark there
    spec fn spec_debark(&self, trip: Self::Trip, position: Self::Position, onboard_criteria: Self::Criteria) -> Option<
        Self::Criteria,
    >;

    /// The best trip of `mission` to board at `position` with `waiting_criteria`, with the
    /// criteria at the next stop, if there is one
    spec fn spec_best_trip_to_board(
        &self,
        position: Self::Position,
        mission: Self::Mission,
        waiting_criteria: Self::Criteria,
    ) -> Option<(Self::Trip, Self::Criteria)>;

    /// The criteria obtained when riding along `trip` from `position` to the next position
    spec fn spec_ride(&self, trip: Self::Trip, position: Self::Position, criteria: Self::Criteria) -> Self::Criteria;

    /// The stop reached and the criteria obtained by taking `transfer` from `from_stop` with
    /// `criteria`
    spec fn spec_transfer(&self, from_stop: Self::Stop, transfer: Self::Transfer, criteria: Self::Criteria) -> (
        Self::Stop,
        Self::Criteria,
    );

    /// The stop of the arrival `arrival`
    spec fn spec_arrival_stop(&self, arrival: Self::Arrival) -> Self::Stop;

    /// The criteria obtained by the arrival `arrival` with `criteria`
    spec fn spec_arrive(&self, arrival: Self::Arrival, criteria: Self::Criteria) -> Self::Criteria;

    /// The stop and the criteria of the departure `departure`
    spec fn spec_depart(&self, departure: Self::Departure) -> (Self::Stop, Self::Criteria);

    /// Returns `true` if `lower` is better or equivalent to `upper`
    fn is_lower(&self, lower: &Self::Criteria, upper: &Self::Criteria) -> (r: bool)
        ensures
            r == self.spec_is_lower(*lower, *upper),
    ;

    /// Returns `true` if `upper` can be discarded because `lower` is known
    fn can_be_discarded(&self, upper: &Self::Criteria, lower: &Self::Criteria) -> (r: bool)
        ensures
            r == self.spec_can_be_discarded(*upper, *lower),
    ;

    /// Returns `false` when `criteria` corresponds to an invalid journey.
    fn is_valid(&self, criteria: &Self::Criteria) -> (r: bool)
        ensures
            r == self.spec_is_valid(*criteria),
    ;

    /// Returns `true` if `upstream` is positionned strictly before `downstream` in `mission`.
    fn is_upstream(
        &self,
        upstream: &Self::Position,
        downstream: &Self::Position,
        mission: &Self::Mission,
    ) -> bool;

    /// Returns `Some(next_position)` if `next_position` is after `position` on `mission`,
    /// and `None` if `position` is the last on `mission`.
    fn next_on_mission(
        &self,
        position: &Self::Position,
        mission: &Self::Mission,
    ) -> (r: Option<Self::Position>)
        ensures
            r == self.spec_next_on_mission(*position, *mission),
            r matches Some(next) ==> self.spec_nb_of_positions_after(next, *mission)
                < self.spec_nb_of_positions_after(*position, *mission),
    ;

    /// Returns the `Mission` that `trip` belongs to.
    fn mission_of(&self, trip: &Self::Trip) -> Self::Mission;

    /// Returns the `Stop` at `position` in `mission`
    fn stop_of(&self, position: &Self::Position, mission: &Self::Mission) -> (r: Self::Stop)
        ensures
            r == self.spec_stop_of(*position, *mission),
    ;

    /// Returns `Some(arrival_criteria)` if `trip` can be boarded when being at `position`
    /// with `waiting_criteria`, where `arrival_criteria` is obtained by boarding `trip`
    /// and riding it until the next stop.
    fn board_and_ride(
        &self,
        position: &Self::Position,
        trip: &Self::Trip,
        waiting_criteria: &Self::Criteria,
    ) -> Option<Self::Criteria>;

    /// Returns `Some((best_trip, best_crit))` where `best_trip` is the best `Trip` of `mission`
    /// that can be boarded while being at `position` with `waiting_criteria`.
    fn best_trip_to_board(
        &self,
        position: &Self::Position,
        mission: &Self::Mission,
        waiting_criteria: &Self::Criteria,
    ) -> (r: Option<(Self::Trip, Self::Criteria)>)
        ensures
            r == self.spec_best_trip_to_board(*position, *mission, *waiting_criteria),
    ;

    /// Returns `Some(debarked_criteria)` obtained by debarking from `trip` at `position`,
    /// or `None` if a passenger cannot debark there.
    fn debark(
        &self,
        trip: &Self::Trip,
        position: &Self::Position,
        onboard_criteria: &Self::Criteria,
    ) -> (r: Option<Self::Criteria>)
        ensures
            r == self.spec_debark(*trip, *position, *onboard_criteria),
    ;

    /// Returns the criteria obtained when riding along `trip` to the next position.
    fn ride(
        &self,
        trip: &Self::Trip,
        position: &Self::Position,
        criteria: &Self::Criteria,
    ) -> (r: Self::Criteria)
        ensures
            r == self.spec_ride(*trip, *position, *criteria),
    ;

    /// Performs `transfer` when being at `from_stop` with `criteria`.
    fn transfer(
        &self,
        from_stop: &Self::Stop,
        transfer: &Self::Transfer,
        criteria: &Self::Criteria,
    ) -> (r: (Self::Stop, Self::Criteria))
        ensures
            r == self.spec_transfer(*from_stop, *transfer, *criteria),
    ;

    /// Returns the `Stop` at which this departure occurs along with the initial `Criteria`
    fn depart(&self, departure: &Self::Departure) -> (r: (Self::Stop, Self::Criteria))
        ensures
            r == self.spec_depart(*departure),
    ;

    /// The stop at which this arrival can be made
    fn arrival_stop(&self, arrival: &Self::Arrival) -> (r: Self::Stop)
        ensures
            r == self.spec_arrival_stop(*arrival),
    ;

    /// Returns the criteria obtained after performing `arrival` with `criteria`.
    fn arrive(&self, arrival: &Self::Arrival, criteria: &Self::Criteria) -> (r: Self::Criteria)
        ensures
            r == self.spec_arrive(*arrival, *criteria),
    ;

    /// An upper bound on the total number of `Stop`s.
    fn nb_of_stops(&self) -> (r: usize)
        ensures
            r == self.spec_nb_of_stops(),
    ;

    /// Returns an usize between 0 and nb_of_stops().
    fn stop_id(&self, stop: &Self::Stop) -> (r: usize)
        ensures
            r < self.spec_nb_of_stops(),
            r == self.spec_stop_id(*stop),
    ;

    /// An upper bound on the total number of `Mission`s.
    fn nb_of_missions(&self) -> (r: usize)
        ensures
            r == self.spec_nb_of_missions(),
    ;

    /// Returns an usize between 0 and nb_of_missions().
    fn mission_id(&self, mission: &Self::Mission) -> (r: usize)
        ensures
            r < self.spec_nb_of_missions(),
            r == self.spec_mission_id(*mission),
    ;
}

/// A request that can enumerate what the engine explores.
pub trait RequestWithIters: Request {
    /// The number of missions that can be boarded at `stop`
    spec fn spec_nb_of_boardable_missions_at(&self, stop: Self::Stop) -> usize;

    /// The `i`-th mission that can be boarded at `stop`, with the position of `stop` on it
    spec fn spec_boardable_mission_at(&self, stop: Self::Stop, i: usize) -> (Self::Mission, Self::Position);

    /// The number of transfers that can be taken at `from_stop`
    spec fn spec_nb_of_transfers_at(&self, from_stop: Self::Stop) -> usize;

    /// The `i`-th transfer that can be taken at `from_stop`
    spec fn spec_transfer_at(&self, from_stop: Self::Stop, i: usize) -> Self::Transfer;

    /// The number of arrivals of a journey
    spec fn spec_nb_of_arrivals(&self) -> usize;

    /// The `i`-th arrival of a journey
    spec fn spec_arrival(&self, i: usize) -> Self::Arrival;

    /// The number of departures of a journey
    spec fn spec_nb_of_departures(&self) -> usize;

    /// The `i`-th departure of a journey
    spec fn spec_departure(&self, i: usize) -> Self::Departure;

    /// All the `Mission`s that can be boarded at `stop`, along with the `Position` of `stop`
    /// on each of them.
    fn boardable_missions_at(&self, stop: &Self::Stop) -> (r: Vec<(Self::Mission, Self::Position)>)
        ensures
            r@.len() == self.spec_nb_of_boardable_missions_at(*stop),
            forall|i: int|
                0 <= i < r@.len() ==> #[trigger] r@[i] == self.spec_boardable_mission_at(*stop, i as usize),
    ;

    /// All possible departures of a journey
    fn departures(&self) -> (r: Vec<Self::Departure>)
        ensures
            r@.len() == self.spec_nb_of_departures(),
            forall|i: int| 0 <= i < r@.len() ==> #[trigger] r@[i] == self.spec_departure(i as usize),
    ;

    /// All `Transfer`s that can be taken at `from_stop`
    fn transfers_at(&self, from_stop: &Self::Stop) -> (r: Vec<Self::Transfer>)
        ensures
            r@.len() == self.spec_nb_of_transfers_at(*from_stop),
            forall|i: int|
                0 <= i < r@.len() ==> #[trigger] r@[i] == self.spec_transfer_at(*from_stop, i as usize),
    ;

    /// All `Trip`s belonging to `mission`
    fn trips_of(&self, mission: &Self::Mission) -> Vec<Self::Trip>;

    /// All possible arrivals of a journey
    fn arrivals(&self) -> (r: Vec<Self::Arrival>)
        ensures
            r@.len() == self.spec_nb_of_arrivals(),
            forall|i: int| 0 <= i < r@.len() ==> #[trigger] r@[i] == self.spec_arrival(i as usize),
    ;
}

/// The first vehicle leg of a journey
pub struct DepartureLeg<PT: RequestTypes> {
    pub departure: PT::Departure,
    pub trip: PT::Trip,
    pub board_position: PT::Position,
    pub debark_position: PT::Position,
}

/// A vehicle leg of a journey reached by a transfer
pub struct ConnectionLeg<PT: RequestTypes> {
    pub transfer: PT::Transfer,
    pub trip: PT::Trip,
    pub board_position: PT::Position,
    pub debark_position: PT::Position,
}

/// A complete journey
pub struct Journey<PT: RequestTypes> {
    pub departure_leg: DepartureLeg<PT>,
    pub connection_legs: Vec<ConnectionLeg<PT>>,
    pub arrival: PT::Arrival,
    pub criteria_at_arrival: PT::Criteria,
}

} // verus!
