use statekit::traits::functor::Functor;

#[test]
fn pair() {
    let input = (1, 2);
    let mapped = input.fmap(|x| x % 2 == 0);
    assert_eq!(mapped.0, false);
    assert_eq!(mapped.1, true);
}

#[test]
fn option_none() {
    let input: Option<i32> = None;
    let mapped = input.fmap(|_| true);
    assert_eq!(None, mapped);
}

#[test]
fn option_some() {
    let input = Some(45);
    let mapped = input.fmap(|_| true);
    assert_eq!(Some(true), mapped);
}

#[test]
fn option_result_err() {
    let input: Result<i32, bool> = Err(false);
    let mapped = input.fmap(|_| 5);
    assert_eq!(Err(false), mapped);
}

#[test]
fn option_result_ok() {
    let input: Result<i32, bool> = Ok(45);
    let mapped = input.fmap(|x| 2 * x);
    assert_eq!(Ok(90), mapped);
}

#[test]
fn option_vec_empty() {
    let input: Vec<i32> = vec![];
    let mapped = input.fmap(|x| 2 * x);
    assert_eq!(0, mapped.len());
}

#[test]
fn option_vec() {
    let input: Vec<i32> = vec![1, 2, 3, 4];
    let mapped = input.fmap(|x| x % 2 == 0);
    assert_eq!(4, mapped.len());
    assert_eq!(false, mapped[0]);
    assert_eq!(true, mapped[1]);
    assert_eq!(false, mapped[2]);
    assert_eq!(true, mapped[3]);
}

#[test]
fn result_err_is_cloned() {
    let input: Result<i32, String> = Err("broken".to_string());
    let mapped = input.fmap(|x| x + 1);
    assert_eq!(mapped, Err("broken".to_string()));
    assert_eq!(input, Err("broken".to_string()));
}

#[test]
fn vec_fmap_keeps_the_order() {
    let input = vec!["a", "bb", "ccc"];
    let mapped = input.fmap(|s| s.len());
    assert_eq!(mapped, vec![1, 2, 3]);
}
