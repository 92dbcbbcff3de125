use reshape::Transpose;

#[test]
fn outcome_of_outcome_success() {
    let r: Result<Result<i32, &str>, u8> = Ok(Ok(5));
    assert_eq!(r.transpose(), Ok(Ok(5)));
}

#[test]
fn outcome_of_outcome_inner_failure() {
    let r: Result<Result<i32, &str>, u8> = Ok(Err("inner"));
    assert_eq!(r.transpose(), Err("inner"));
}

#[test]
fn outcome_of_outcome_outer_failure() {
    let r: Result<Result<i32, &str>, u8> = Err(3);
    assert_eq!(r.transpose(), Ok(Err(3)));
}

#[test]
fn outcome_of_outcome_twice_is_identity() {
    let all: Vec<Result<Result<i32, &str>, u8>> = vec![Ok(Ok(1)), Ok(Err("e")), Err(2)];
    for r in all {
        assert_eq!(r.clone().transpose().transpose(), r);
    }
}

#[test]
fn optional_of_optional() {
    assert_eq!(Some(Some(4)).transpose(), Some(Some(4)));
    assert_eq!(Some(None::<i32>).transpose(), None);
    assert_eq!(None::<Option<i32>>.transpose(), Some(None));
}

#[test]
fn optional_of_optional_twice_is_identity() {
    let all: Vec<Option<Option<i32>>> = vec![Some(Some(1)), Some(None), None];
    for o in all {
        assert_eq!(o.transpose().transpose(), o);
    }
}

#[test]
fn sequence_of_optional_all_present() {
    assert_eq!(vec![Some(1), Some(2), Some(3)].transpose(), Some(vec![1, 2, 3]));
}

#[test]
fn sequence_of_optional_one_absent() {
    assert_eq!(vec![Some(1), None, Some(3)].transpose(), None);
    assert_eq!(vec![None::<i32>].transpose(), None);
}

#[test]
fn sequence_of_optional_empty() {
    assert_eq!(Vec::<Option<i32>>::new().transpose(), Some(vec![]));
}

#[test]
fn optional_of_sequence() {
    assert_eq!(Some(vec![1, 2]).transpose(), vec![Some(1), Some(2)]);
    assert_eq!(Some(Vec::<i32>::new()).transpose(), Vec::<Option<i32>>::new());
}

#[test]
fn optional_of_sequence_absent_is_one_absent_element() {
    assert_eq!(None::<Vec<i32>>.transpose(), vec![None]);
    assert_eq!(None::<Vec<i32>>.transpose().transpose(), None);
}

#[test]
fn sequence_of_outcome_all_ok() {
    let v: Vec<Result<i32, &str>> = vec![Ok(1), Ok(2)];
    assert_eq!(v.transpose(), Ok(vec![1, 2]));
}

#[test]
fn sequence_of_outcome_first_failure_wins() {
    let v: Vec<Result<i32, &str>> = vec![Ok(1), Err("first"), Ok(3), Err("second")];
    assert_eq!(v.transpose(), Err("first"));
}

#[test]
fn sequence_of_outcome_empty() {
    assert_eq!(Vec::<Result<i32, &str>>::new().transpose(), Ok(vec![]));
}

#[test]
fn outcome_of_sequence() {
    let r: Result<Vec<i32>, &str> = Ok(vec![1, 2]);
    assert_eq!(r.transpose(), vec![Ok(1), Ok(2)]);
    let e: Result<Vec<i32>, &str> = Err("bad");
    assert_eq!(e.transpose(), vec![Err("bad")]);
}
