use reshape::Transpose;
use std::collections::HashMap;

fn map_of<K: std::hash::Hash + Eq, V>(pairs: Vec<(K, V)>) -> HashMap<K, V> {
    let mut m = HashMap::new();
    for (k, v) in pairs {
        m.insert(k, v);
    }
    m
}

#[test]
fn pivot_map_of_maps() {
    let m = map_of(vec![
        ("x", map_of(vec![("p", 1), ("q", 2)])),
        ("y", map_of(vec![("q", 3)])),
    ]);
    let expected = map_of(vec![
        ("p", map_of(vec![("x", 1)])),
        ("q", map_of(vec![("x", 2), ("y", 3)])),
    ]);
    assert_eq!(m.transpose(), expected);
}

#[test]
fn pivot_empty() {
    let m: HashMap<u8, HashMap<u8, u8>> = HashMap::new();
    assert_eq!(m.transpose(), HashMap::new());
}

#[test]
fn pivot_drops_empty_rows() {
    let m = map_of(vec![(1u8, map_of(vec![(10u8, 'a')])), (2u8, HashMap::new())]);
    let expected = map_of(vec![(10u8, map_of(vec![(1u8, 'a')]))]);
    let once = m.transpose();
    assert_eq!(once, expected);
    assert_eq!(once.transpose(), map_of(vec![(1u8, map_of(vec![(10u8, 'a')]))]));
}

#[test]
fn pivot_twice_gives_the_table_back() {
    let m = map_of(vec![
        (1u32, map_of(vec![(10u32, "a"), (20u32, "b")])),
        (2u32, map_of(vec![(20u32, "c"), (30u32, "d")])),
    ]);
    assert_eq!(m.clone().transpose().transpose(), m);
}

#[test]
fn pivot_with_owned_keys() {
    let m = map_of(vec![(
        String::from("x"),
        map_of(vec![(String::from("p"), 1), (String::from("q"), 2)]),
    )]);
    let expected = map_of(vec![
        (String::from("p"), map_of(vec![(String::from("x"), 1)])),
        (String::from("q"), map_of(vec![(String::from("x"), 2)])),
    ]);
    assert_eq!(m.transpose(), expected);
}

#[test]
fn zip_map_of_sequences() {
    let m = map_of(vec![("a", vec![1, 2]), ("b", vec![3, 4])]);
    assert_eq!(
        m.transpose(),
        vec![map_of(vec![("a", 1), ("b", 3)]), map_of(vec![("a", 2), ("b", 4)])]
    );
}

#[test]
fn zip_is_ragged() {
    let m = map_of(vec![("a", vec![1, 2]), ("b", vec![3])]);
    assert_eq!(m.transpose(), vec![map_of(vec![("a", 1), ("b", 3)]), map_of(vec![("a", 2)])]);
}

#[test]
fn zip_of_nothing() {
    let m: HashMap<&str, Vec<i32>> = HashMap::new();
    assert_eq!(m.transpose(), Vec::<HashMap<&str, i32>>::new());
    let only_empty = map_of(vec![("a", Vec::<i32>::new())]);
    assert_eq!(only_empty.transpose(), Vec::<HashMap<&str, i32>>::new());
}

#[test]
fn stack_sequence_of_maps() {
    let s = vec![map_of(vec![("a", 1), ("b", 3)]), map_of(vec![("a", 2), ("b", 4)])];
    assert_eq!(s.transpose(), Some(map_of(vec![("a", vec![1, 2]), ("b", vec![3, 4])])));
}

#[test]
fn stack_of_nothing() {
    let s: Vec<HashMap<&str, i32>> = vec![];
    assert_eq!(s.transpose(), Some(HashMap::new()));
}

#[test]
fn stack_of_empty_records() {
    let s: Vec<HashMap<&str, i32>> = vec![HashMap::new(), HashMap::new()];
    assert_eq!(s.transpose(), Some(HashMap::new()));
}

#[test]
fn stack_rejects_key_that_stops() {
    let s = vec![map_of(vec![("a", 1), ("b", 3)]), map_of(vec![("a", 2)])];
    assert_eq!(s.transpose(), None);
}

#[test]
fn stack_rejects_key_that_starts_late() {
    let s = vec![map_of(vec![("a", 1)]), map_of(vec![("a", 2), ("b", 3)])];
    assert_eq!(s.transpose(), None);
}

#[test]
fn stack_rejects_key_that_skips() {
    let s = vec![
        map_of(vec![("a", 1), ("b", 9)]),
        map_of(vec![("a", 2)]),
        map_of(vec![("a", 3), ("b", 8)]),
    ];
    assert_eq!(s.transpose(), None);
}

#[test]
fn round_trip_of_even_sequences() {
    let m = map_of(vec![("a", vec![1, 2, 3]), ("b", vec![4, 5, 6])]);
    assert_eq!(m.clone().transpose().transpose(), Some(m));
}

#[test]
fn round_trip_of_uneven_sequences_fails() {
    let m = map_of(vec![("a", vec![1, 2]), ("b", vec![3])]);
    let s = m.transpose();
    assert_eq!(s, vec![map_of(vec![("a", 1), ("b", 3)]), map_of(vec![("a", 2)])]);
    assert_eq!(s.transpose(), None);
}

#[test]
fn round_trip_forgets_empty_sequences() {
    let m = map_of(vec![("a", vec![1, 2]), ("b", vec![])]);
    assert_eq!(m.transpose().transpose(), Some(map_of(vec![("a", vec![1, 2])])));
    let only_empty = map_of(vec![("a", Vec::<i32>::new())]);
    assert_eq!(only_empty.transpose().transpose(), Some(HashMap::new()));
}

#[test]
fn stack_rejects_record_that_lacks_every_key() {
    let s = vec![map_of(vec![("a", 1)]), HashMap::new()];
    assert_eq!(s.transpose(), None);
    let late = vec![HashMap::new(), map_of(vec![("a", 1)])];
    assert_eq!(late.transpose(), None);
}

#[test]
fn stack_rejects_records_with_other_keys() {
    let s = vec![map_of(vec![("a", 1)]), map_of(vec![("b", 2)])];
    assert_eq!(s.transpose(), None);
}

#[test]
fn stack_single_record() {
    let s = vec![map_of(vec![(1u64, 'x'), (2u64, 'y')])];
    assert_eq!(s.transpose(), Some(map_of(vec![(1u64, vec!['x']), (2u64, vec!['y'])])));
}

#[test]
fn zip_with_integer_keys() {
    let m = map_of(vec![(1u64, vec![10, 11, 12]), (2u64, vec![20])]);
    assert_eq!(
        m.transpose(),
        vec![
            map_of(vec![(1u64, 10), (2u64, 20)]),
            map_of(vec![(1u64, 11)]),
            map_of(vec![(1u64, 12)]),
        ]
    );
}
