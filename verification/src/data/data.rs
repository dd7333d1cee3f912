use std::collections::BTreeMap;

use vstd::prelude::*;

use crate::data::chain_decomposition::ChainDecomposition;

verus! {

/// A duration, in seconds
#[derive(Debug, Copy, Clone)]
pub struct Duration {
    pub seconds: u32,
}

/// A position in a sequence of stops
#[derive(Debug, PartialEq, Eq, Structural, Copy, Clone)]
pub struct Position {
    pub idx: usize,
}

/// The stops of a stop pattern, in their order, with the departure and arrival times of its
/// trips split into chains
pub struct StopPattern {
    pub stops: Vec<StopIdx>,
    pub departure_chains: ChainDecomposition<DailyTripData>,
    pub arrival_chains: ChainDecomposition<DailyTripData>,
}

/// What a trip of a stop pattern carries: its vehicle journey, by its index
#[derive(Debug, Clone, Copy)]
pub struct DailyTripData {
    pub vehicle_journey_idx: usize,
}

/// A stop of the routing: the stop point it stands for, by its index, its position in each
/// stop pattern it belongs to, and the transfers from it, each with its duration and the
/// index of the transfer of the data it comes from, if any
pub struct Stop {
    pub stop_point_idx: usize,
    pub position_in_stop_patterns: Vec<(StopPatternIdx, Position)>,
    pub transfers: Vec<(StopIdx, Duration, Option<usize>)>,
}

/// A stop pattern, by its position among the stop patterns
#[derive(Debug, PartialEq, Eq, Structural, Clone, Copy)]
pub struct StopPatternIdx {
    pub idx: usize,
}

/// A stop, by its position among the stops
#[derive(Debug, PartialEq, Eq, Structural, Clone, Copy)]
pub struct StopIdx {
    pub idx: usize,
}

/// The stops and stop patterns of the routing, with the stop pattern of each sequence of
/// stop points and the stops of each stop point
pub struct TransitData {
    pub stop_point_array_to_stop_pattern: BTreeMap<Vec<usize>, StopPatternIdx>,
    pub stop_point_idx_to_stops_idx: BTreeMap<usize, Vec<StopIdx>>,
    pub stops: Vec<Stop>,
    pub stop_patterns: Vec<StopPattern>,
}

/// The position given with the first pair of `positions` whose stop pattern is
/// `stop_pattern_idx`, if there is one
pub open spec fn position_in(positions: Seq<(StopPatternIdx, Position)>, stop_pattern_idx: StopPatternIdx) -> Option<
    Position,
>
    decreases positions.len(),
{
    if positions.len() == 0 {
        None
    } else if positions[0].0 == stop_pattern_idx {
        Some(positions[0].1)
    } else {
        position_in(positions.drop_first(), stop_pattern_idx)
    }
}

/// Past pairs of another stop pattern, the position is that in the rest.
proof fn lemma_position_in_skip(positions: Seq<(StopPatternIdx, Position)>, stop_pattern_idx: StopPatternIdx, i: int)
    requires
        0 <= i <= positions.len(),
        forall|j: int| 0 <= j < i ==> (#[trigger] positions[j]).0 != stop_pattern_idx,
    ensures
        position_in(positions, stop_pattern_idx) == position_in(positions.skip(i), stop_pattern_idx),
    decreases i,
{
    if i == 0 {
        assert(positions.skip(0) =~= positions);
    } else {
        let rest = positions.drop_first();
        assert forall|j: int| 0 <= j < i - 1 implies (#[trigger] rest[j]).0 != stop_pattern_idx by {
            assert(rest[j] == positions[j + 1]);
        }
        lemma_position_in_skip(rest, stop_pattern_idx, i - 1);
        assert(rest.skip(i - 1) =~= positions.skip(i));
    }
}

impl Stop {
    /// The position of this stop in the stop pattern `stop_pattern_idx`, if it belongs to it
    fn get_position_in_stop_pattern(&self, stop_pattern_idx: &StopPatternIdx) -> (r: Option<Position>)
        ensures
            r == position_in(self.position_in_stop_patterns@, *stop_pattern_idx),
    {
        let mut i: usize = 0;
        while i < self.position_in_stop_patterns.len()
            invariant
                i <= self.position_in_stop_patterns@.len(),
                forall|j: int| 0 <= j < i ==> (#[trigger] self.position_in_stop_patterns@[j]).0 != *stop_pattern_idx,
            decreases self.position_in_stop_patterns@.len() - i,
        {
            let (candidate, position) = self.position_in_stop_patterns[i];
            if candidate == *stop_pattern_idx {
                proof {
                    lemma_position_in_skip(self.position_in_stop_patterns@, *stop_pattern_idx, i as int);
                }
                return Some(position);
            }
            i += 1;
        }
        proof {
            lemma_position_in_skip(self.position_in_stop_patterns@, *stop_pattern_idx, i as int);
        }
        None
    }
}

impl TransitData {
    /// The position of stop `stop_idx` in stop pattern `stop_pattern_idx`, if it belongs to it
    pub open spec fn position_of(&self, stop_idx: StopIdx, stop_pattern_idx: StopPatternIdx) -> Option<Position> {
        position_in(self.stops@[stop_idx.idx as int].position_in_stop_patterns@, stop_pattern_idx)
    }

    /// `true` when stop `upstream_idx` comes before stop `downstream_idx` in stop pattern
    /// `stop_pattern_idx`, to which both belong
    pub fn is_upstream(&self, upstream_idx: &StopIdx, downstream_idx: &StopIdx, stop_pattern_idx: &StopPatternIdx) -> (r:
        bool)
        requires
            upstream_idx.idx < self.stops@.len(),
            downstream_idx.idx < self.stops@.len(),
            self.position_of(*upstream_idx, *stop_pattern_idx) is Some,
            self.position_of(*downstream_idx, *stop_pattern_idx) is Some,
        ensures
            r == (self.position_of(*upstream_idx, *stop_pattern_idx)->0.idx < self.position_of(
                *downstream_idx,
                *stop_pattern_idx,
            )->0.idx),
    {
        let upstream = &self.stops[upstream_idx.idx];
        let downstream = &self.stops[downstream_idx.idx];
        let upstream_position = upstream.get_position_in_stop_pattern(stop_pattern_idx).unwrap();
        let downstream_position = downstream.get_position_in_stop_pattern(stop_pattern_idx).unwrap();
        upstream_position.idx < downstream_position.idx
    }

    /// The stop after stop `stop_idx` in stop pattern `stop_pattern_idx`, to which it
    /// belongs; none when it is the last one
    pub fn next_on_stop_pattern(&self, stop_idx: &StopIdx, stop_pattern_idx: &StopPatternIdx) -> (r: Option<StopIdx>)
        requires
            stop_idx.idx < self.stops@.len(),
            stop_pattern_idx.idx < self.stop_patterns@.len(),
            self.position_of(*stop_idx, *stop_pattern_idx) matches Some(p) && p.idx
                < self.stop_patterns@[stop_pattern_idx.idx as int].stops@.len(),
        ensures
            ({
                let stops = self.stop_patterns@[stop_pattern_idx.idx as int].stops@;
                let p = self.position_of(*stop_idx, *stop_pattern_idx)->0.idx;
                if p + 1 < stops.len() {
                    r == Some(stops[p + 1])
                } else {
                    r is None
                }
            }),
    {
        let stop = &self.stops[stop_idx.idx];
        let position = stop.get_position_in_stop_pattern(stop_pattern_idx).unwrap();
        let stop_pattern = &self.stop_patterns[stop_pattern_idx.idx];
        let nb_of_stops = stop_pattern.stops.len();
        let next = position.idx + 1;
        if next < nb_of_stops {
            Some(stop_pattern.stops[next])
        } else {
            None
        }
    }
}

} // verus!
