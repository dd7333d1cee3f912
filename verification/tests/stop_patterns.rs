use std::collections::BTreeMap;

use loki::data::chain_decomposition::ChainDecomposition;
use loki::data::data::{Position, Stop, StopIdx, StopPattern, StopPatternIdx, TransitData};

fn stop(stop_point_idx: usize, positions: Vec<(usize, usize)>) -> Stop {
    Stop {
        stop_point_idx,
        position_in_stop_patterns: positions
            .into_iter()
            .map(|(pattern, position)| (StopPatternIdx { idx: pattern }, Position { idx: position }))
            .collect(),
        transfers: vec![],
    }
}

fn pattern(stops: &[usize]) -> StopPattern {
    StopPattern {
        stops: stops.iter().map(|idx| StopIdx { idx: *idx }).collect(),
        departure_chains: ChainDecomposition::new(stops.len()),
        arrival_chains: ChainDecomposition::new(stops.len()),
    }
}

fn data() -> TransitData {
    // pattern 0 goes 0 -> 1 -> 2, pattern 1 goes 2 -> 0
    TransitData {
        stop_point_array_to_stop_pattern: BTreeMap::new(),
        stop_point_idx_to_stops_idx: BTreeMap::new(),
        stops: vec![stop(10, vec![(0, 0), (1, 1)]), stop(11, vec![(0, 1)]), stop(12, vec![(1, 0), (0, 2)])],
        stop_patterns: vec![pattern(&[0, 1, 2]), pattern(&[2, 0])],
    }
}

#[test]
fn stops_along_patterns() {
    let data = data();
    let first = StopPatternIdx { idx: 0 };
    let second = StopPatternIdx { idx: 1 };
    assert!(data.is_upstream(&StopIdx { idx: 0 }, &StopIdx { idx: 2 }, &first));
    assert!(!data.is_upstream(&StopIdx { idx: 0 }, &StopIdx { idx: 2 }, &second));
    assert!(!data.is_upstream(&StopIdx { idx: 1 }, &StopIdx { idx: 1 }, &first));
    assert_eq!(data.next_on_stop_pattern(&StopIdx { idx: 1 }, &first), Some(StopIdx { idx: 2 }));
    assert_eq!(data.next_on_stop_pattern(&StopIdx { idx: 2 }, &first), None);
    assert_eq!(data.next_on_stop_pattern(&StopIdx { idx: 2 }, &second), Some(StopIdx { idx: 0 }));
    assert_eq!(data.next_on_stop_pattern(&StopIdx { idx: 0 }, &second), None);
}
