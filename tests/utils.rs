use std::convert::Infallible;

use server::utils::IteratorExt;

#[test]
fn try_map() {
    let v = [1, 2, 3]
        .into_iter()
        .map(Ok::<_, Infallible>)
        .collect::<Vec<_>>()
        .try_map(|v| v + 1)
        .try_collect();

    assert_eq!(v, Ok(vec![2, 3, 4]));
}

#[test]
fn try_map_keeps_errors_in_place() {
    let items: Vec<Result<i32, &str>> = vec![Ok(1), Err("bad"), Ok(3)];
    let mapped = items.try_map(|v| v * 10);
    assert_eq!(mapped, vec![Ok(10), Err("bad"), Ok(30)]);
}

#[test]
fn try_collect_gives_first_error() {
    let items: Vec<Result<i32, &str>> = vec![Ok(1), Err("first"), Err("second")];
    assert_eq!(items.try_collect(), Err("first"));
}

#[test]
fn try_collect_of_nothing_is_empty() {
    let items: Vec<Result<i32, &str>> = Vec::new();
    assert_eq!(items.try_collect(), Ok(Vec::new()));
}
