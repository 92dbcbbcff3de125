use reshape::Transpose;

#[test]
fn transpose_vec_vec() {
    assert_eq!(
        vec![vec![1, 2, 3], vec![4, 5, 6]].transpose(),
        Some(vec![vec![1, 4], vec![2, 5], vec![3, 6]])
    );
    assert_eq!(vec![vec![1, 2, 3], vec![4, 5]].transpose(), None);
}

#[test]
fn transpose_no_rows() {
    let empty: Vec<Vec<i32>> = vec![];
    assert_eq!(empty.transpose(), Some(vec![]));
}

#[test]
fn transpose_empty_rows_gives_no_columns() {
    let rows: Vec<Vec<i32>> = vec![vec![], vec![], vec![]];
    assert_eq!(rows.transpose(), Some(vec![]));
}

#[test]
fn transpose_single_row_and_single_column() {
    assert_eq!(vec![vec![7, 8, 9]].transpose(), Some(vec![vec![7], vec![8], vec![9]]));
    assert_eq!(vec![vec![7], vec![8], vec![9]].transpose(), Some(vec![vec![7, 8, 9]]));
}

#[test]
fn transpose_twice_gives_the_matrix_back() {
    let m = vec![vec!["a", "b"], vec!["c", "d"], vec!["e", "f"]];
    let once = m.clone().transpose().unwrap();
    assert_eq!(once, vec![vec!["a", "c", "e"], vec!["b", "d", "f"]]);
    assert_eq!(once.transpose(), Some(m));
}

#[test]
fn transpose_twice_loses_rows_without_cells() {
    let m: Vec<Vec<u8>> = vec![vec![], vec![]];
    let once = m.transpose().unwrap();
    assert_eq!(once, Vec::<Vec<u8>>::new());
    assert_eq!(once.transpose(), Some(vec![]));
}

#[test]
fn transpose_ragged_longer_later_row() {
    assert_eq!(vec![vec![1, 2], vec![3, 4, 5]].transpose(), None);
}

#[test]
fn transpose_ragged_empty_first_row() {
    assert_eq!(vec![vec![], vec![1]].transpose(), None);
}

#[test]
fn transpose_ragged_in_the_middle() {
    assert_eq!(vec![vec![1, 2], vec![3], vec![4, 5]].transpose(), None);
}

#[test]
fn transpose_moves_values_that_cannot_be_copied() {
    let m = vec![
        vec![String::from("a"), String::from("b")],
        vec![String::from("c"), String::from("d")],
    ];
    assert_eq!(
        m.transpose(),
        Some(vec![
            vec![String::from("a"), String::from("c")],
            vec![String::from("b"), String::from("d")],
        ])
    );
}

#[test]
fn transpose_array() {
    let a = [[1, 2, 3], [4, 5, 6]];
    let t: [[i32; 2]; 3] = a.transpose();
    assert_eq!(t, [[1, 4], [2, 5], [3, 6]]);
    assert_eq!(t.transpose(), a);
}

#[test]
fn transpose_array_one_by_one() {
    assert_eq!([[9u8]].transpose(), [[9u8]]);
}

#[test]
fn transpose_array_without_columns() {
    let a: [[u8; 0]; 2] = [[], []];
    let t: [[u8; 2]; 0] = a.transpose();
    assert_eq!(t.len(), 0);
}

#[test]
fn transpose_array_without_rows() {
    let a: [[u8; 3]; 0] = [];
    let t: [[u8; 0]; 3] = a.transpose();
    assert_eq!(t, [[], [], []]);
}

#[test]
fn transpose_array_of_strings() {
    let a = [[String::from("x"), String::from("y")]];
    assert_eq!(a.transpose(), [[String::from("x")], [String::from("y")]]);
}
