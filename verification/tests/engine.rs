use loki::engine::journeys_tree::JourneysTree;
use loki::engine::multicriteria_raptor::MultiCriteriaRaptor;
use loki::engine::pareto_front::ParetoFront;
use loki::traits::{Request, RequestTypes, RequestWithIters};

/// A line of three stops, 0 -> 1 -> 2, served by two trips, without transfers.
/// Criteria: (arrival time, number of legs).
struct Line {
    times: Vec<[u32; 3]>,
    departure_time: u32,
}

impl RequestTypes for Line {
    type Stop = usize;
    type Mission = usize;
    type Position = usize;
    type Trip = usize;
    type Transfer = usize;
    type Departure = usize;
    type Arrival = usize;
    type Criteria = (u32, u8);
}

impl Request for Line {
    // the mathematical counterparts of the methods below, as plain functions
    fn spec_is_lower(&self, lower: (u32, u8), upper: (u32, u8)) -> bool {
        self.is_lower(&lower, &upper)
    }

    fn spec_can_be_discarded(&self, upper: (u32, u8), lower: (u32, u8)) -> bool {
        self.can_be_discarded(&upper, &lower)
    }

    fn spec_is_valid(&self, criteria: (u32, u8)) -> bool {
        self.is_valid(&criteria)
    }

    fn spec_nb_of_positions_after(&self, position: usize, _mission: usize) -> usize {
        2 - position
    }

    fn spec_nb_of_stops(&self) -> usize {
        3
    }

    fn spec_nb_of_missions(&self) -> usize {
        1
    }

    fn spec_stop_id(&self, stop: usize) -> usize {
        stop
    }

    fn spec_mission_id(&self, _mission: usize) -> usize {
        0
    }

    fn spec_next_on_mission(&self, position: usize, mission: usize) -> Option<usize> {
        self.next_on_mission(&position, &mission)
    }

    fn spec_stop_of(&self, position: usize, mission: usize) -> usize {
        self.stop_of(&position, &mission)
    }

    fn spec_debark(&self, trip: usize, position: usize, onboard: (u32, u8)) -> Option<(u32, u8)> {
        self.debark(&trip, &position, &onboard)
    }

    fn spec_best_trip_to_board(&self, position: usize, mission: usize, waiting: (u32, u8)) -> Option<(usize, (u32, u8))> {
        self.best_trip_to_board(&position, &mission, &waiting)
    }

    fn spec_ride(&self, trip: usize, position: usize, criteria: (u32, u8)) -> (u32, u8) {
        self.ride(&trip, &position, &criteria)
    }

    fn spec_transfer(&self, from_stop: usize, transfer: usize, criteria: (u32, u8)) -> (usize, (u32, u8)) {
        self.transfer(&from_stop, &transfer, &criteria)
    }

    fn spec_arrival_stop(&self, arrival: usize) -> usize {
        self.arrival_stop(&arrival)
    }

    fn spec_arrive(&self, arrival: usize, criteria: (u32, u8)) -> (u32, u8) {
        self.arrive(&arrival, &criteria)
    }

    fn spec_depart(&self, departure: usize) -> (usize, (u32, u8)) {
        self.depart(&departure)
    }

    fn is_lower(&self, lower: &(u32, u8), upper: &(u32, u8)) -> bool {
        lower.0 <= upper.0 && lower.1 <= upper.1
    }

    fn can_be_discarded(&self, upper: &(u32, u8), lower: &(u32, u8)) -> bool {
        lower.0 <= upper.0 && lower.1 <= upper.1
    }

    fn is_valid(&self, _criteria: &(u32, u8)) -> bool {
        true
    }

    fn is_upstream(&self, upstream: &usize, downstream: &usize, _mission: &usize) -> bool {
        upstream < downstream
    }

    fn next_on_mission(&self, position: &usize, _mission: &usize) -> Option<usize> {
        if position + 1 < 3 {
            Some(position + 1)
        } else {
            None
        }
    }

    fn mission_of(&self, _trip: &usize) -> usize {
        0
    }

    fn stop_of(&self, position: &usize, _mission: &usize) -> usize {
        *position
    }

    fn board_and_ride(&self, position: &usize, trip: &usize, waiting: &(u32, u8)) -> Option<(u32, u8)> {
        if position + 1 < 3 && self.times[*trip][*position] >= waiting.0 {
            Some((self.times[*trip][position + 1], waiting.1 + 1))
        } else {
            None
        }
    }

    fn best_trip_to_board(
        &self,
        position: &usize,
        _mission: &usize,
        waiting: &(u32, u8),
    ) -> Option<(usize, (u32, u8))> {
        if position + 1 >= 3 {
            return None;
        }
        for trip in 0..self.times.len() {
            if self.times[trip][*position] >= waiting.0 {
                return Some((trip, (self.times[trip][position + 1], waiting.1 + 1)));
            }
        }
        None
    }

    fn debark(&self, _trip: &usize, _position: &usize, onboard: &(u32, u8)) -> Option<(u32, u8)> {
        Some(*onboard)
    }

    fn ride(&self, trip: &usize, position: &usize, criteria: &(u32, u8)) -> (u32, u8) {
        let next = if position + 1 < 3 { position + 1 } else { *position };
        (self.times[*trip][next], criteria.1)
    }

    fn transfer(&self, from_stop: &usize, _transfer: &usize, criteria: &(u32, u8)) -> (usize, (u32, u8)) {
        (*from_stop, *criteria)
    }

    fn depart(&self, _departure: &usize) -> (usize, (u32, u8)) {
        (0, (self.departure_time, 0))
    }

    fn arrival_stop(&self, _arrival: &usize) -> usize {
        2
    }

    fn arrive(&self, _arrival: &usize, criteria: &(u32, u8)) -> (u32, u8) {
        *criteria
    }

    fn nb_of_stops(&self) -> usize {
        3
    }

    fn stop_id(&self, stop: &usize) -> usize {
        *stop
    }

    fn nb_of_missions(&self) -> usize {
        1
    }

    fn mission_id(&self, _mission: &usize) -> usize {
        0
    }
}

impl RequestWithIters for Line {
    fn spec_nb_of_boardable_missions_at(&self, stop: usize) -> usize {
        self.boardable_missions_at(&stop).len()
    }

    fn spec_boardable_mission_at(&self, stop: usize, i: usize) -> (usize, usize) {
        self.boardable_missions_at(&stop)[i]
    }

    fn spec_nb_of_transfers_at(&self, _from_stop: usize) -> usize {
        0
    }

    fn spec_transfer_at(&self, _from_stop: usize, i: usize) -> usize {
        i
    }

    fn spec_nb_of_arrivals(&self) -> usize {
        1
    }

    fn spec_arrival(&self, _i: usize) -> usize {
        0
    }

    fn spec_nb_of_departures(&self) -> usize {
        1
    }

    fn spec_departure(&self, _i: usize) -> usize {
        0
    }

    fn boardable_missions_at(&self, stop: &usize) -> Vec<(usize, usize)> {
        if *stop < 2 {
            vec![(0, *stop)]
        } else {
            vec![]
        }
    }

    fn departures(&self) -> Vec<usize> {
        vec![0]
    }

    fn transfers_at(&self, _from_stop: &usize) -> Vec<usize> {
        vec![]
    }

    fn trips_of(&self, _mission: &usize) -> Vec<usize> {
        (0..self.times.len()).collect()
    }

    fn arrivals(&self) -> Vec<usize> {
        vec![0]
    }
}

fn line(departure_time: u32) -> Line {
    Line { times: vec![[100, 200, 300], [150, 250, 350]], departure_time }
}

#[test]
fn raptor_boards_the_first_trip_after_the_departure() {
    let pt = line(120);
    let mut raptor = MultiCriteriaRaptor::<Line>::new(3, 1);
    raptor.compute(&pt);
    assert_eq!(raptor.nb_of_journeys(), 1);
    let journeys = raptor.responses();
    assert_eq!(journeys.len(), 1);
    let journey = &journeys[0];
    assert_eq!(journey.departure_leg.departure, 0);
    assert_eq!(journey.departure_leg.trip, 1);
    assert_eq!(journey.departure_leg.board_position, 0);
    assert_eq!(journey.departure_leg.debark_position, 2);
    assert!(journey.connection_legs.is_empty());
    assert_eq!(journey.arrival, 0);
    assert_eq!(journey.criteria_at_arrival, (350, 1));
}

#[test]
fn raptor_takes_the_earliest_trip_when_both_can_be_boarded() {
    let pt = line(90);
    let mut raptor = MultiCriteriaRaptor::<Line>::new(3, 1);
    raptor.compute(&pt);
    let journeys = raptor.responses();
    assert_eq!(journeys.len(), 1);
    assert_eq!(journeys[0].departure_leg.trip, 0);
    assert_eq!(journeys[0].criteria_at_arrival, (300, 1));
}

#[test]
fn raptor_finds_nothing_after_the_last_trip() {
    let pt = line(200);
    let mut raptor = MultiCriteriaRaptor::<Line>::new(3, 1);
    raptor.compute(&pt);
    assert_eq!(raptor.nb_of_journeys(), 0);
    assert!(raptor.responses().is_empty());
}

#[test]
fn pareto_front_add_keeps_only_non_dominated() {
    let pt = line(0);
    let mut front = ParetoFront::<u32, Line>::new();
    assert!(front.is_empty());
    front.add(1, (300, 2), &pt);
    front.add(2, (350, 1), &pt);
    assert_eq!(front.len(), 2);
    // dominated by (300, 2): refused
    front.add(3, (310, 2), &pt);
    assert_eq!(front.len(), 2);
    // dominates both: replaces them
    front.add(4, (290, 1), &pt);
    assert_eq!(front.len(), 1);
    let elements: Vec<(u32, (u32, u8))> = front.iter().cloned().collect();
    assert_eq!(elements, vec![(4, (290, 1))]);
}

#[test]
fn pareto_front_dominates_everything_added_to_it() {
    let pt = line(0);
    let mut front = ParetoFront::<u32, Line>::new();
    let added = [(300, 2), (350, 1), (310, 2), (290, 3), (280, 1), (400, 0)];
    for (k, criteria) in added.iter().enumerate() {
        front.add(k as u32, *criteria, &pt);
        for earlier in added[..=k].iter() {
            assert!(front.dominates(earlier, &pt));
        }
    }
    assert_eq!(front.len(), 2);
}

#[test]
fn pareto_front_dominates() {
    let pt = line(0);
    let mut front = ParetoFront::<u32, Line>::new();
    front.add(1, (300, 2), &pt);
    assert!(front.dominates(&(300, 2), &pt));
    assert!(front.dominates(&(301, 3), &pt));
    assert!(!front.dominates(&(299, 3), &pt));
    front.clear();
    assert!(front.is_empty());
}

#[test]
fn journeys_tree_gives_back_the_journey_built() {
    let mut tree = JourneysTree::<Line>::new();
    assert!(tree.is_empty());
    let wait = tree.depart(&0);
    let board = tree.board(&wait, &1, &0);
    let debark = tree.debark(&board, &2);
    let arrive = tree.arrive(&debark, &0);
    assert_eq!(tree.size(), 4);
    let journey = tree.create_journey(&arrive, &(350, 1));
    assert_eq!(journey.departure_leg.departure, 0);
    assert_eq!(journey.departure_leg.trip, 1);
    assert_eq!(journey.departure_leg.board_position, 0);
    assert_eq!(journey.departure_leg.debark_position, 2);
    assert!(journey.connection_legs.is_empty());
    assert_eq!(journey.arrival, 0);
    assert_eq!(journey.criteria_at_arrival, (350, 1));
    tree.clear();
    assert!(tree.is_empty());
}

#[test]
fn journeys_tree_gives_back_connections_in_order() {
    let mut tree = JourneysTree::<Line>::new();
    let wait = tree.depart(&0);
    let board = tree.board(&wait, &0, &0);
    let debark = tree.debark(&board, &1);
    let wait2 = tree.transfer(&debark, &7);
    let board2 = tree.board(&wait2, &1, &1);
    let debark2 = tree.debark(&board2, &2);
    let arrive = tree.arrive(&debark2, &0);
    let journey = tree.create_journey(&arrive, &(350, 2));
    assert_eq!(journey.departure_leg.trip, 0);
    assert_eq!(journey.departure_leg.debark_position, 1);
    assert_eq!(journey.connection_legs.len(), 1);
    assert_eq!(journey.connection_legs[0].transfer, 7);
    assert_eq!(journey.connection_legs[0].trip, 1);
    assert_eq!(journey.connection_legs[0].board_position, 1);
    assert_eq!(journey.connection_legs[0].debark_position, 2);
}

#[test]
fn raptor_tree_holds_each_journey_and_the_moments_before_it() {
    let pt = line(120);
    let mut raptor = MultiCriteriaRaptor::<Line>::new(3, 1);
    raptor.compute(&pt);
    assert!(raptor.tree_size() >= raptor.nb_of_journeys() + 3);
    let rounds = raptor.nb_of_rounds();
    assert!(rounds >= 1);
    // a second computation starts its count of rounds anew
    raptor.compute(&pt);
    assert_eq!(raptor.nb_of_rounds(), rounds);
    assert_eq!(raptor.nb_of_journeys(), 1);
}

#[test]
fn raptor_counts_the_same_rounds_on_each_computation() {
    let pt = line(120);
    let mut raptor = MultiCriteriaRaptor::<Line>::new(3, 1);
    raptor.compute(&pt);
    let first_rounds = raptor.nb_of_rounds();
    let first_criteria: Vec<(u32, u8)> = raptor.responses().iter().map(|j| j.criteria_at_arrival).collect();
    raptor.compute(&pt);
    assert!(first_rounds >= 1);
    assert_eq!(raptor.nb_of_rounds(), first_rounds);
    let second_criteria: Vec<(u32, u8)> = raptor.responses().iter().map(|j| j.criteria_at_arrival).collect();
    assert_eq!(second_criteria, first_criteria);
}

#[test]
fn raptor_covers_the_journey_of_each_trip() {
    // waiting from 90, both trips can be boarded; the journey on the second trip arrives
    // later, and is covered by the one found on the first trip
    let pt = line(90);
    let mut raptor = MultiCriteriaRaptor::<Line>::new(3, 1);
    raptor.compute(&pt);
    let journeys = raptor.responses();
    assert!(!journeys.is_empty());
    let later = (350u32, 1u8);
    assert!(journeys.iter().any(|j| j.criteria_at_arrival.0 <= later.0 && j.criteria_at_arrival.1 <= later.1));
}
