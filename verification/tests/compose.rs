use statekit::{compose, Pair};

#[test]
fn compose_runs_the_first_function_first() {
    let double_then_inc = compose(|x: i32| x * 2, |x: i32| x + 1);
    assert_eq!(double_then_inc(3), 7);
    assert_eq!(double_then_inc(-4), -7);

    let inc_then_double = compose(|x: i32| x + 1, |x: i32| x * 2);
    assert_eq!(inc_then_double(3), 8);
}

#[test]
fn compose_may_change_the_type_on_the_way() {
    let length_is_even = compose(|s: &str| s.len(), |n: usize| n % 2 == 0);
    assert_eq!(length_is_even("ab"), true);
    assert_eq!(length_is_even("abc"), false);
}

#[test]
fn pair_is_a_tuple_of_two() {
    let pair: Pair<u8> = (1, 2);
    assert_eq!(pair.0 + pair.1, 3);
}
