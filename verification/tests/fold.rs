use statekit::traits::fold::Fold;

#[test]
fn fold_empty_vec() {
    let v = vec![];

    let start = 321;

    let result = v.fold(start, |a, b| a + b);

    assert_eq!(result, start);
}

#[test]
fn fold_vec_add() {
    let v = vec![1, 2, 3];

    let result = v.fold(0, |a, b| a + b);

    assert_eq!(result, 6);
}

#[test]
fn fold_vec_mul() {
    let v = vec![3, 3, 4];

    let result = v.fold(1, |a, b| a * b);

    assert_eq!(result, 36);
}

#[test]
fn fold_pair_combines_the_components_first() {
    let pair = (10, 4);
    let result = pair.fold(100, |a, b| a - b);
    assert_eq!(result, 94);
}

#[test]
fn fold_vec_goes_from_the_left() {
    let v = vec![1, 2, 3];
    let result = v.fold(10, |a, b| a - b);
    assert_eq!(result, 4);

    let words = vec!["b".to_string(), "c".to_string()];
    let joined = words.fold("a".to_string(), |a, b| format!("{}{}", a, b));
    assert_eq!(joined, "abc");
}
