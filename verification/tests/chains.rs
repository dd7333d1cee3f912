use loki::chain_decomposition::{Chain, ChainDecomposition};
use loki::data::chain_decomposition::ChainDecomposition as DataChainDecomposition;
use loki::data::data::Position;
use loki::laxatips_data::timetables::timetables_data::partial_cmp;
use std::cmp::Ordering;

#[test]
fn chain_accepts_comparable_vectors_only() {
    let mut chain = Chain::<u32>::new(2);
    assert!(chain.accept(&[1, 1]));
    chain.insert(&[1, 1], 0);
    assert!(chain.accept(&[2, 3]));
    assert!(chain.accept(&[0, 0]));
    assert!(chain.accept(&[1, 1]));
    assert!(!chain.accept(&[0, 2]));
    assert!(!chain.accept(&[2, 0]));
    assert_eq!(chain.nb_of_positions(), 2);
}

#[test]
fn chain_insert_keeps_first_values_sorted() {
    let mut chain = Chain::<u32>::new(2);
    chain.insert(&[5, 5], 0);
    chain.insert(&[1, 1], 1);
    chain.insert(&[9, 9], 2);
    chain.insert(&[5, 6], 3);
    // vectors comparable with all are accepted at any time
    assert!(chain.accept(&[0, 0]));
    assert!(!chain.accept(&[6, 5]));
}

#[test]
fn decomposition_opens_a_chain_for_incomparable_vectors() {
    let mut decomposition = ChainDecomposition::<&str>::new(2);
    decomposition.insert(&[1, 1], "a");
    decomposition.insert(&[2, 2], "b");
    decomposition.insert(&[0, 3], "c");
    decomposition.insert(&[3, 0], "d");
    decomposition.insert(&[4, 4], "e");
}

#[test]
fn data_decomposition_counts_its_items() {
    let mut decomposition = DataChainDecomposition::<&str>::new(2);
    assert_eq!(decomposition.nb_of_items(), 0);
    decomposition.insert(&[5, 5], "a");
    assert_eq!(decomposition.nb_of_items(), 1);
    // lower than "a": goes before it in the same chain
    decomposition.insert(&[3, 3], "b");
    assert_eq!(decomposition.nb_of_items(), 2);
    // not comparable with "a": a new chain
    decomposition.insert(&[6, 1], "c");
    assert_eq!(decomposition.nb_of_items(), 3);
}

#[test]
fn data_decomposition_finds_the_first_item_at_or_above_a_value() {
    let mut decomposition = DataChainDecomposition::<&str>::new(2);
    decomposition.insert(&[5, 5], "a");
    decomposition.insert(&[3, 3], "b");
    // chain 0 holds [3, 3] then [5, 5]; at position 0, the first value at least 5 is 5
    let found = decomposition.get_items_greater_or_equal(5, Position { idx: 0 });
    assert_eq!(found.len(), 1);
    assert_eq!(*decomposition.get_value(&found[0], &Position { idx: 0 }), 5);
    assert_eq!(*decomposition.get_data(&found[0]), "a");
    // the first value at least 4 is 5
    let found = decomposition.get_items_greater_or_equal(4, Position { idx: 1 });
    assert_eq!(found.len(), 1);
    assert_eq!(*decomposition.get_data(&found[0]), "a");
    // the first value at least 3 is 3
    let found = decomposition.get_items_greater_or_equal(3, Position { idx: 1 });
    assert_eq!(*decomposition.get_data(&found[0]), "b");
    // the first value at least 2 is 3
    let found = decomposition.get_items_greater_or_equal(2, Position { idx: 0 });
    assert_eq!(found.len(), 1);
    assert_eq!(*decomposition.get_data(&found[0]), "b");
    // no value at least 6
    let found = decomposition.get_items_greater_or_equal(6, Position { idx: 0 });
    assert!(found.is_empty());
}

#[test]
fn data_decomposition_lookup_in_a_single_item_chain() {
    let mut decomposition = DataChainDecomposition::<&str>::new(1);
    decomposition.insert(&[3], "a");
    let found = decomposition.get_items_greater_or_equal(2, Position { idx: 0 });
    assert_eq!(found.len(), 1);
    assert_eq!(*decomposition.get_data(&found[0]), "a");
}

#[test]
fn chain_insert_keeps_every_position_sorted() {
    let mut chain = Chain::<u32>::new(2);
    chain.insert(&[3, 4], 0);
    chain.insert(&[3, 5], 1);
    assert_eq!(chain.id_values(0), vec![3, 4]);
    assert_eq!(chain.id_values(1), vec![3, 5]);
    assert!(chain.is_sorted());
    chain.insert(&[3, 4], 2);
    assert!(chain.is_sorted());
}

#[test]
fn partial_cmp_of_vectors() {
    assert_eq!(partial_cmp(&[1, 2, 3], &[1, 2, 3]), Some(Ordering::Equal));
    assert_eq!(partial_cmp(&[1, 2, 3], &[1, 3, 3]), Some(Ordering::Less));
    assert_eq!(partial_cmp(&[2, 2, 3], &[1, 2, 3]), Some(Ordering::Greater));
    assert_eq!(partial_cmp(&[0, 2, 3], &[1, 1, 3]), None);
    assert_eq!(partial_cmp(&[], &[]), Some(Ordering::Equal));
}

#[test]
fn chain_values_of_an_id_and_sortedness() {
    let mut chain = Chain::<u32>::new(2);
    chain.insert(&[5, 6], 0);
    chain.insert(&[1, 2], 1);
    chain.insert(&[9, 9], 2);
    // stored by increasing first value
    assert_eq!(chain.id_values(0), vec![1, 2]);
    assert_eq!(chain.id_values(1), vec![5, 6]);
    assert_eq!(chain.id_values(2), vec![9, 9]);
    assert!(chain.is_sorted());
}
