use reshape::Flatten;
use std::collections::HashMap;

fn map_of<K: std::hash::Hash + Eq, V>(pairs: Vec<(K, V)>) -> HashMap<K, V> {
    let mut m = HashMap::new();
    for (k, v) in pairs {
        m.insert(k, v);
    }
    m
}

#[test]
fn flatten_sequence_of_sequences() {
    assert_eq!(vec![vec![1, 2], vec![3], vec![4, 5, 6]].flatten(), vec![1, 2, 3, 4, 5, 6]);
}

#[test]
fn flatten_sequence_of_sequences_with_empty_rows() {
    assert_eq!(vec![vec![], vec![1], vec![], vec![2, 3]].flatten(), vec![1, 2, 3]);
    assert_eq!(Vec::<Vec<i32>>::new().flatten(), Vec::<i32>::new());
}

#[test]
fn flatten_sequence_of_optionals() {
    assert_eq!(vec![Some(1), None, Some(3), None].flatten(), vec![1, 3]);
    assert_eq!(vec![None::<i32>, None].flatten(), Vec::<i32>::new());
    assert_eq!(vec![Some("a"), Some("b")].flatten(), vec!["a", "b"]);
}

#[test]
fn flatten_map_of_maps() {
    let m = map_of(vec![
        ("x", map_of(vec![("p", 1), ("q", 2)])),
        ("y", map_of(vec![("q", 3)])),
        ("z", HashMap::new()),
    ]);
    assert_eq!(m.flatten(), map_of(vec![(("x", "p"), 1), (("x", "q"), 2), (("y", "q"), 3)]));
}

#[test]
fn flatten_map_of_sequences() {
    let m = map_of(vec![("a", vec![10, 20]), ("b", vec![30]), ("c", vec![])]);
    assert_eq!(m.flatten(), map_of(vec![(("a", 0), 10), (("a", 1), 20), (("b", 0), 30)]));
}

#[test]
fn flatten_sequence_of_maps() {
    let s = vec![map_of(vec![("a", 1)]), map_of(vec![("b", 2)])];
    assert_eq!(s.flatten(), map_of(vec![((0, "a"), 1), ((1, "b"), 2)]));
}

#[test]
fn flatten_sequence_of_maps_keeps_equal_keys_apart() {
    let s = vec![map_of(vec![("a", 1)]), HashMap::new(), map_of(vec![("a", 2), ("b", 3)])];
    assert_eq!(s.flatten(), map_of(vec![((0, "a"), 1), ((2, "a"), 2), ((2, "b"), 3)]));
}
