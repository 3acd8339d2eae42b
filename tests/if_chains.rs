//! If-chains of `if` and `if let` clauses, in the last `for` level and in
//! one that has another `for` level after it.

use py_comp::emit::compile;

#[test]
fn for_if() {
    let iterable = &[(1, 11), (2, 12), (3, 13), (4, 14), (5, 15)];
    assert_eq!(compile("*a; for (a, _) in iterable; if *a > 1").unwrap(), "{ let into_iterator = iterable; ::py_comp::__py_comp_assert_impl_into_iter(&into_iterator); into_iterator.into_iter().filter_map(move |(a, _)| if *a > 1 { Some(*a) } else { None }) }");
    let items: Vec<i32> = { let into_iterator = iterable; ::py_comp::__py_comp_assert_impl_into_iter(&into_iterator); into_iterator.into_iter().filter_map(move |(a, _)| if *a > 1 { Some(*a) } else { None }) }.collect();
    assert_eq!(items, vec![2, 3, 4, 5]);
}

#[test]
fn for_if_if_let() {
    let iterable = &[(1, 11), (2, 12), (3, 13), (4, 14), (5, 15)];
    assert_eq!(compile("*a; for (a, b) in iterable; if *a > 1; if let 13..=14 = b").unwrap(), "{ let into_iterator = iterable; ::py_comp::__py_comp_assert_impl_into_iter(&into_iterator); into_iterator.into_iter().filter_map(move |(a, b)| if *a > 1 { if let 13..=14 = b { Some(*a) } else { None } } else { None }) }");
    let items: Vec<i32> = { let into_iterator = iterable; ::py_comp::__py_comp_assert_impl_into_iter(&into_iterator); into_iterator.into_iter().filter_map(move |(a, b)| if *a > 1 { if let 13..=14 = b { Some(*a) } else { None } } else { None }) }.collect();
    assert_eq!(items, vec![3, 4]);
}

#[test]
fn for_if_if_let_if_let() {
    let iterable = &[(1, 11), (2, 12), (3, 13), (4, 14), (5, 15)];
    assert_eq!(compile("*a; for (a, b) in iterable; if *a > 1; if let 13..=15 = b; if let 14..=14 = b").unwrap(), "{ let into_iterator = iterable; ::py_comp::__py_comp_assert_impl_into_iter(&into_iterator); into_iterator.into_iter().filter_map(move |(a, b)| if *a > 1 { if let 13..=15 = b { if let 14..=14 = b { Some(*a) } else { None } } else { None } } else { None }) }");
    let items: Vec<i32> = { let into_iterator = iterable; ::py_comp::__py_comp_assert_impl_into_iter(&into_iterator); into_iterator.into_iter().filter_map(move |(a, b)| if *a > 1 { if let 13..=15 = b { if let 14..=14 = b { Some(*a) } else { None } } else { None } } else { None }) }.collect();
    assert_eq!(items, vec![4]);
}

#[test]
fn for_if_if_let_if_let_if() {
    let iterable = &[(1, 11), (2, 12), (3, 13), (4, 14), (5, 15)];
    assert_eq!(compile("*a; for (a, b) in iterable; if *a > 1; if let 13..=15 = b; if let 13..=14 = b; if *b < 14").unwrap(), "{ let into_iterator = iterable; ::py_comp::__py_comp_assert_impl_into_iter(&into_iterator); into_iterator.into_iter().filter_map(move |(a, b)| if *a > 1 { if let 13..=15 = b { if let 13..=14 = b { if *b < 14 { Some(*a) } else { None } } else { None } } else { None } } else { None }) }");
    let items: Vec<i32> = { let into_iterator = iterable; ::py_comp::__py_comp_assert_impl_into_iter(&into_iterator); into_iterator.into_iter().filter_map(move |(a, b)| if *a > 1 { if let 13..=15 = b { if let 13..=14 = b { if *b < 14 { Some(*a) } else { None } } else { None } } else { None } } else { None }) }.collect();
    assert_eq!(items, vec![3]);
}

#[test]
fn for_if_if() {
    let iterable = &[(1, 11), (2, 12), (3, 13), (4, 14), (5, 15)];
    assert_eq!(compile("*a; for (a, b) in iterable; if *a > 1; if *b < 15").unwrap(), "{ let into_iterator = iterable; ::py_comp::__py_comp_assert_impl_into_iter(&into_iterator); into_iterator.into_iter().filter_map(move |(a, b)| if *a > 1 { if *b < 15 { Some(*a) } else { None } } else { None }) }");
    let items: Vec<i32> = { let into_iterator = iterable; ::py_comp::__py_comp_assert_impl_into_iter(&into_iterator); into_iterator.into_iter().filter_map(move |(a, b)| if *a > 1 { if *b < 15 { Some(*a) } else { None } } else { None }) }.collect();
    assert_eq!(items, vec![2, 3, 4]);
}

#[test]
fn for_if_if_if_let() {
    let iterable = &[(1, 11), (2, 12), (3, 13), (4, 14), (5, 15)];
    assert_eq!(compile("*a; for (a, b) in iterable; if *a > 1; if *b < 15; if let 2..=3 = a").unwrap(), "{ let into_iterator = iterable; ::py_comp::__py_comp_assert_impl_into_iter(&into_iterator); into_iterator.into_iter().filter_map(move |(a, b)| if *a > 1 { if *b < 15 { if let 2..=3 = a { Some(*a) } else { None } } else { None } } else { None }) }");
    let items: Vec<i32> = { let into_iterator = iterable; ::py_comp::__py_comp_assert_impl_into_iter(&into_iterator); into_iterator.into_iter().filter_map(move |(a, b)| if *a > 1 { if *b < 15 { if let 2..=3 = a { Some(*a) } else { None } } else { None } } else { None }) }.collect();
    assert_eq!(items, vec![2, 3]);
}

#[test]
fn for_if_if_if_let_if_let() {
    let iterable = &[(1, 11), (2, 12), (3, 13), (4, 14), (5, 15)];
    assert_eq!(compile("*a; for (a, b) in iterable; if *a > 1; if *b < 15; if let 2..=3 = a; if let 3..=4 = a").unwrap(), "{ let into_iterator = iterable; ::py_comp::__py_comp_assert_impl_into_iter(&into_iterator); into_iterator.into_iter().filter_map(move |(a, b)| if *a > 1 { if *b < 15 { if let 2..=3 = a { if let 3..=4 = a { Some(*a) } else { None } } else { None } } else { None } } else { None }) }");
    let items: Vec<i32> = { let into_iterator = iterable; ::py_comp::__py_comp_assert_impl_into_iter(&into_iterator); into_iterator.into_iter().filter_map(move |(a, b)| if *a > 1 { if *b < 15 { if let 2..=3 = a { if let 3..=4 = a { Some(*a) } else { None } } else { None } } else { None } } else { None }) }.collect();
    assert_eq!(items, vec![3]);
}

#[test]
fn for_if_let() {
    let iterable = &[(1, 11), (2, 12), (3, 13), (4, 14), (5, 15)];
    assert_eq!(compile("*a; for (a, _) in iterable; if let 2..=5 = a").unwrap(), "{ let into_iterator = iterable; ::py_comp::__py_comp_assert_impl_into_iter(&into_iterator); into_iterator.into_iter().filter_map(move |(a, _)| if let 2..=5 = a { Some(*a) } else { None }) }");
    let items: Vec<i32> = { let into_iterator = iterable; ::py_comp::__py_comp_assert_impl_into_iter(&into_iterator); into_iterator.into_iter().filter_map(move |(a, _)| if let 2..=5 = a { Some(*a) } else { None }) }.collect();
    assert_eq!(items, vec![2, 3, 4, 5]);
}

#[test]
fn for_if_let_if() {
    let iterable = &[(1, 11), (2, 12), (3, 13), (4, 14), (5, 15)];
    assert_eq!(compile("*a; for (a, b) in iterable; if let 2..=5 = a; if *b >= 13 && *b <= 14").unwrap(), "{ let into_iterator = iterable; ::py_comp::__py_comp_assert_impl_into_iter(&into_iterator); into_iterator.into_iter().filter_map(move |(a, b)| if let 2..=5 = a { if *b >= 13 && *b <= 14 { Some(*a) } else { None } } else { None }) }");
    let items: Vec<i32> = { let into_iterator = iterable; ::py_comp::__py_comp_assert_impl_into_iter(&into_iterator); into_iterator.into_iter().filter_map(move |(a, b)| if let 2..=5 = a { if *b >= 13 && *b <= 14 { Some(*a) } else { None } } else { None }) }.collect();
    assert_eq!(items, vec![3, 4]);
}

#[test]
fn for_if_let_if_if() {
    let iterable = &[(1, 11), (2, 12), (3, 13), (4, 14), (5, 15)];
    assert_eq!(compile("*a; for (a, b) in iterable; if let 2..=5 = a; if *b >= 13 && *b <= 15; if *b >= 14 && *b <= 14").unwrap(), "{ let into_iterator = iterable; ::py_comp::__py_comp_assert_impl_into_iter(&into_iterator); into_iterator.into_iter().filter_map(move |(a, b)| if let 2..=5 = a { if *b >= 13 && *b <= 15 { if *b >= 14 && *b <= 14 { Some(*a) } else { None } } else { None } } else { None }) }");
    let items: Vec<i32> = { let into_iterator = iterable; ::py_comp::__py_comp_assert_impl_into_iter(&into_iterator); into_iterator.into_iter().filter_map(move |(a, b)| if let 2..=5 = a { if *b >= 13 && *b <= 15 { if *b >= 14 && *b <= 14 { Some(*a) } else { None } } else { None } } else { None }) }.collect();
    assert_eq!(items, vec![4]);
}

#[test]
fn for_if_let_if_if_if_let() {
    let iterable = &[(1, 11), (2, 12), (3, 13), (4, 14), (5, 15)];
    assert_eq!(compile("*a; for (a, b) in iterable; if let 2..=5 = a; if *b >= 13 && *b <= 15; if *b >= 13 && *b <= 14; if let 11..=13 = b").unwrap(), "{ let into_iterator = iterable; ::py_comp::__py_comp_assert_impl_into_iter(&into_iterator); into_iterator.into_iter().filter_map(move |(a, b)| if let 2..=5 = a { if *b >= 13 && *b <= 15 { if *b >= 13 && *b <= 14 { if let 11..=13 = b { Some(*a) } else { None } } else { None } } else { None } } else { None }) }");
    let items: Vec<i32> = { let into_iterator = iterable; ::py_comp::__py_comp_assert_impl_into_iter(&into_iterator); into_iterator.into_iter().filter_map(move |(a, b)| if let 2..=5 = a { if *b >= 13 && *b <= 15 { if *b >= 13 && *b <= 14 { if let 11..=13 = b { Some(*a) } else { None } } else { None } } else { None } } else { None }) }.collect();
    assert_eq!(items, vec![3]);
}

#[test]
fn for_if_let_if_let() {
    let iterable = &[(1, 11), (2, 12), (3, 13), (4, 14), (5, 15)];
    assert_eq!(compile("*a; for (a, b) in iterable; if let 2..=5 = a; if let 11..=14 = b").unwrap(), "{ let into_iterator = iterable; ::py_comp::__py_comp_assert_impl_into_iter(&into_iterator); into_iterator.into_iter().filter_map(move |(a, b)| if let 2..=5 = a { if let 11..=14 = b { Some(*a) } else { None } } else { None }) }");
    let items: Vec<i32> = { let into_iterator = iterable; ::py_comp::__py_comp_assert_impl_into_iter(&into_iterator); into_iterator.into_iter().filter_map(move |(a, b)| if let 2..=5 = a { if let 11..=14 = b { Some(*a) } else { None } } else { None }) }.collect();
    assert_eq!(items, vec![2, 3, 4]);
}

#[test]
fn for_if_let_if_let_if() {
    let iterable = &[(1, 11), (2, 12), (3, 13), (4, 14), (5, 15)];
    assert_eq!(compile("*a; for (a, b) in iterable; if let 2..=5 = a; if let 11..=14 = b; if *a >= 2 && *a <= 3").unwrap(), "{ let into_iterator = iterable; ::py_comp::__py_comp_assert_impl_into_iter(&into_iterator); into_iterator.into_iter().filter_map(move |(a, b)| if let 2..=5 = a { if let 11..=14 = b { if *a >= 2 && *a <= 3 { Some(*a) } else { None } } else { None } } else { None }) }");
    let items: Vec<i32> = { let into_iterator = iterable; ::py_comp::__py_comp_assert_impl_into_iter(&into_iterator); into_iterator.into_iter().filter_map(move |(a, b)| if let 2..=5 = a { if let 11..=14 = b { if *a >= 2 && *a <= 3 { Some(*a) } else { None } } else { None } } else { None }) }.collect();
    assert_eq!(items, vec![2, 3]);
}

#[test]
fn for_if_let_if_let_if_if() {
    let iterable = &[(1, 11), (2, 12), (3, 13), (4, 14), (5, 15)];
    assert_eq!(compile("*a; for (a, b) in iterable; if let 2..=5 = a; if let 11..=14 = b; if *a >=2 && *a <= 3; if *a >=3 && *a <= 4").unwrap(), "{ let into_iterator = iterable; ::py_comp::__py_comp_assert_impl_into_iter(&into_iterator); into_iterator.into_iter().filter_map(move |(a, b)| if let 2..=5 = a { if let 11..=14 = b { if *a >=2 && *a <= 3 { if *a >=3 && *a <= 4 { Some(*a) } else { None } } else { None } } else { None } } else { None }) }");
    let items: Vec<i32> = { let into_iterator = iterable; ::py_comp::__py_comp_assert_impl_into_iter(&into_iterator); into_iterator.into_iter().filter_map(move |(a, b)| if let 2..=5 = a { if let 11..=14 = b { if *a >=2 && *a <= 3 { if *a >=3 && *a <= 4 { Some(*a) } else { None } } else { None } } else { None } } else { None }) }.collect();
    assert_eq!(items, vec![3]);
}

#[test]
fn for_if_for() {
    let iterable1 = &[(1, 11), (2, 12), (3, 13), (4, 14), (5, 15)];
    let iterable2 = &[(1, 11)];
    assert_eq!(compile("(*a, *x); for (a, _) in iterable1; if *a > 1; for (_, x) in iterable2").unwrap(), "{ let into_iterator = iterable1; ::py_comp::__py_comp_assert_impl_into_iter(&into_iterator); into_iterator.into_iter().filter_map(move |(a, _)| if *a > 1 { Some({ let into_iterator = iterable2; ::py_comp::__py_comp_assert_impl_into_iter(&into_iterator); into_iterator.into_iter().map(move |(_, x)| (*a, *x)) }) } else { None }).flatten() }");
    let items: Vec<(i32, i32)> = { let into_iterator = iterable1; ::py_comp::__py_comp_assert_impl_into_iter(&into_iterator); into_iterator.into_iter().filter_map(move |(a, _)| if *a > 1 { Some({ let into_iterator = iterable2; ::py_comp::__py_comp_assert_impl_into_iter(&into_iterator); into_iterator.into_iter().map(move |(_, x)| (*a, *x)) }) } else { None }).flatten() }.collect();
    assert_eq!(items, vec![(2, 11), (3, 11), (4, 11), (5, 11)]);
}

#[test]
fn for_if_if_let_for() {
    let iterable1 = &[(1, 11), (2, 12), (3, 13), (4, 14), (5, 15)];
    let iterable2 = &[(1, 11)];
    assert_eq!(compile("(*a, *x); for (a, b) in iterable1; if *a > 1; if let 13..=14 = b; for (_, x) in iterable2").unwrap(), "{ let into_iterator = iterable1; ::py_comp::__py_comp_assert_impl_into_iter(&into_iterator); into_iterator.into_iter().filter_map(move |(a, b)| if *a > 1 { if let 13..=14 = b { Some({ let into_iterator = iterable2; ::py_comp::__py_comp_assert_impl_into_iter(&into_iterator); into_iterator.into_iter().map(move |(_, x)| (*a, *x)) }) } else { None } } else { None }).flatten() }");
    let items: Vec<(i32, i32)> = { let into_iterator = iterable1; ::py_comp::__py_comp_assert_impl_into_iter(&into_iterator); into_iterator.into_iter().filter_map(move |(a, b)| if *a > 1 { if let 13..=14 = b { Some({ let into_iterator = iterable2; ::py_comp::__py_comp_assert_impl_into_iter(&into_iterator); into_iterator.into_iter().map(move |(_, x)| (*a, *x)) }) } else { None } } else { None }).flatten() }.collect();
    assert_eq!(items, vec![(3, 11), (4, 11)]);
}

#[test]
fn for_if_if_let_if_let_for() {
    let iterable1 = &[(1, 11), (2, 12), (3, 13), (4, 14), (5, 15)];
    let iterable2 = &[(1, 11)];
    assert_eq!(compile("(*a, *x); for (a, b) in iterable1; if *a > 1; if let 13..=15 = b; if let 14..=14 = b; for (_, x) in iterable2").unwrap(), "{ let into_iterator = iterable1; ::py_comp::__py_comp_assert_impl_into_iter(&into_iterator); into_iterator.into_iter().filter_map(move |(a, b)| if *a > 1 { if let 13..=15 = b { if let 14..=14 = b { Some({ let into_iterator = iterable2; ::py_comp::__py_comp_assert_impl_into_iter(&into_iterator); into_iterator.into_iter().map(move |(_, x)| (*a, *x)) }) } else { None } } else { None } } else { None }).flatten() }");
    let items: Vec<(i32, i32)> = { let into_iterator = iterable1; ::py_comp::__py_comp_assert_impl_into_iter(&into_iterator); into_iterator.into_iter().filter_map(move |(a, b)| if *a > 1 { if let 13..=15 = b { if let 14..=14 = b { Some({ let into_iterator = iterable2; ::py_comp::__py_comp_assert_impl_into_iter(&into_iterator); into_iterator.into_iter().map(move |(_, x)| (*a, *x)) }) } else { None } } else { None } } else { None }).flatten() }.collect();
    assert_eq!(items, vec![(4, 11)]);
}

#[test]
fn for_if_if_let_if_let_if_for() {
    let iterable1 = &[(1, 11), (2, 12), (3, 13), (4, 14), (5, 15)];
    let iterable2 = &[(1, 11)];
    assert_eq!(compile("(*a, *x); for (a, b) in iterable1; if *a > 1; if let 13..=15 = b; if let 13..=14 = b; if *b < 14; for (_, x) in iterable2").unwrap(), "{ let into_iterator = iterable1; ::py_comp::__py_comp_assert_impl_into_iter(&into_iterator); into_iterator.into_iter().filter_map(move |(a, b)| if *a > 1 { if let 13..=15 = b { if let 13..=14 = b { if *b < 14 { Some({ let into_iterator = iterable2; ::py_comp::__py_comp_assert_impl_into_iter(&into_iterator); into_iterator.into_iter().map(move |(_, x)| (*a, *x)) }) } else { None } } else { None } } else { None } } else { None }).flatten() }");
    let items: Vec<(i32, i32)> = { let into_iterator = iterable1; ::py_comp::__py_comp_assert_impl_into_iter(&into_iterator); into_iterator.into_iter().filter_map(move |(a, b)| if *a > 1 { if let 13..=15 = b { if let 13..=14 = b { if *b < 14 { Some({ let into_iterator = iterable2; ::py_comp::__py_comp_assert_impl_into_iter(&into_iterator); into_iterator.into_iter().map(move |(_, x)| (*a, *x)) }) } else { None } } else { None } } else { None } } else { None }).flatten() }.collect();
    assert_eq!(items, vec![(3, 11)]);
}

#[test]
fn for_if_if_for() {
    let iterable1 = &[(1, 11), (2, 12), (3, 13), (4, 14), (5, 15)];
    let iterable2 = &[(1, 11)];
    assert_eq!(compile("(*a, *x); for (a, b) in iterable1; if *a > 1; if *b < 15; for (_, x) in iterable2").unwrap(), "{ let into_iterator = iterable1; ::py_comp::__py_comp_assert_impl_into_iter(&into_iterator); into_iterator.into_iter().filter_map(move |(a, b)| if *a > 1 { if *b < 15 { Some({ let into_iterator = iterable2; ::py_comp::__py_comp_assert_impl_into_iter(&into_iterator); into_iterator.into_iter().map(move |(_, x)| (*a, *x)) }) } else { None } } else { None }).flatten() }");
    let items: Vec<(i32, i32)> = { let into_iterator = iterable1; ::py_comp::__py_comp_assert_impl_into_iter(&into_iterator); into_iterator.into_iter().filter_map(move |(a, b)| if *a > 1 { if *b < 15 { Some({ let into_iterator = iterable2; ::py_comp::__py_comp_assert_impl_into_iter(&into_iterator); into_iterator.into_iter().map(move |(_, x)| (*a, *x)) }) } else { None } } else { None }).flatten() }.collect();
    assert_eq!(items, vec![(2, 11), (3, 11), (4, 11)]);
}

#[test]
fn for_if_if_if_let_for() {
    let iterable1 = &[(1, 11), (2, 12), (3, 13), (4, 14), (5, 15)];
    let iterable2 = &[(1, 11)];
    assert_eq!(compile("(*a, *x); for (a, b) in iterable1; if *a > 1; if *b < 15; if let 2..=3 = a; for (_, x) in iterable2").unwrap(), "{ let into_iterator = iterable1; ::py_comp::__py_comp_assert_impl_into_iter(&into_iterator); into_iterator.into_iter().filter_map(move |(a, b)| if *a > 1 { if *b < 15 { if let 2..=3 = a { Some({ let into_iterator = iterable2; ::py_comp::__py_comp_assert_impl_into_iter(&into_iterator); into_iterator.into_iter().map(move |(_, x)| (*a, *x)) }) } else { None } } else { None } } else { None }).flatten() }");
    let items: Vec<(i32, i32)> = { let into_iterator = iterable1; ::py_comp::__py_comp_assert_impl_into_iter(&into_iterator); into_iterator.into_iter().filter_map(move |(a, b)| if *a > 1 { if *b < 15 { if let 2..=3 = a { Some({ let into_iterator = iterable2; ::py_comp::__py_comp_assert_impl_into_iter(&into_iterator); into_iterator.into_iter().map(move |(_, x)| (*a, *x)) }) } else { None } } else { None } } else { None }).flatten() }.collect();
    assert_eq!(items, vec![(2, 11), (3, 11)]);
}

#[test]
fn for_if_if_if_let_if_let_for() {
    let iterable1 = &[(1, 11), (2, 12), (3, 13), (4, 14), (5, 15)];
    let iterable2 = &[(1, 11)];
    assert_eq!(compile("(*a, *x); for (a, b) in iterable1; if *a > 1; if *b < 15; if let 2..=3 = a; if let 3..=4 = a; for (_, x) in iterable2").unwrap(), "{ let into_iterator = iterable1; ::py_comp::__py_comp_assert_impl_into_iter(&into_iterator); into_iterator.into_iter().filter_map(move |(a, b)| if *a > 1 { if *b < 15 { if let 2..=3 = a { if let 3..=4 = a { Some({ let into_iterator = iterable2; ::py_comp::__py_comp_assert_impl_into_iter(&into_iterator); into_iterator.into_iter().map(move |(_, x)| (*a, *x)) }) } else { None } } else { None } } else { None } } else { None }).flatten() }");
    let items: Vec<(i32, i32)> = { let into_iterator = iterable1; ::py_comp::__py_comp_assert_impl_into_iter(&into_iterator); into_iterator.into_iter().filter_map(move |(a, b)| if *a > 1 { if *b < 15 { if let 2..=3 = a { if let 3..=4 = a { Some({ let into_iterator = iterable2; ::py_comp::__py_comp_assert_impl_into_iter(&into_iterator); into_iterator.into_iter().map(move |(_, x)| (*a, *x)) }) } else { None } } else { None } } else { None } } else { None }).flatten() }.collect();
    assert_eq!(items, vec![(3, 11)]);
}

#[test]
fn for_if_let_for() {
    let iterable1 = &[(1, 11), (2, 12), (3, 13), (4, 14), (5, 15)];
    let iterable2 = &[(1, 11)];
    assert_eq!(compile("(*a, *x); for (a, _) in iterable1; if let 2..=5 = a; for (_, x) in iterable2").unwrap(), "{ let into_iterator = iterable1; ::py_comp::__py_comp_assert_impl_into_iter(&into_iterator); into_iterator.into_iter().filter_map(move |(a, _)| if let 2..=5 = a { Some({ let into_iterator = iterable2; ::py_comp::__py_comp_assert_impl_into_iter(&into_iterator); into_iterator.into_iter().map(move |(_, x)| (*a, *x)) }) } else { None }).flatten() }");
    let items: Vec<(i32, i32)> = { let into_iterator = iterable1; ::py_comp::__py_comp_assert_impl_into_iter(&into_iterator); into_iterator.into_iter().filter_map(move |(a, _)| if let 2..=5 = a { Some({ let into_iterator = iterable2; ::py_comp::__py_comp_assert_impl_into_iter(&into_iterator); into_iterator.into_iter().map(move |(_, x)| (*a, *x)) }) } else { None }).flatten() }.collect();
    assert_eq!(items, vec![(2, 11), (3, 11), (4, 11), (5, 11)]);
}

#[test]
fn for_if_let_if_for() {
    let iterable1 = &[(1, 11), (2, 12), (3, 13), (4, 14), (5, 15)];
    let iterable2 = &[(1, 11)];
    assert_eq!(compile("(*a, *x); for (a, b) in iterable1; if let 2..=5 = a; if *b >= 13 && *b <= 14; for (_, x) in iterable2").unwrap(), "{ let into_iterator = iterable1; ::py_comp::__py_comp_assert_impl_into_iter(&into_iterator); into_iterator.into_iter().filter_map(move |(a, b)| if let 2..=5 = a { if *b >= 13 && *b <= 14 { Some({ let into_iterator = iterable2; ::py_comp::__py_comp_assert_impl_into_iter(&into_iterator); into_iterator.into_iter().map(move |(_, x)| (*a, *x)) }) } else { None } } else { None }).flatten() }");
    let items: Vec<(i32, i32)> = { let into_iterator = iterable1; ::py_comp::__py_comp_assert_impl_into_iter(&into_iterator); into_iterator.into_iter().filter_map(move |(a, b)| if let 2..=5 = a { if *b >= 13 && *b <= 14 { Some({ let into_iterator = iterable2; ::py_comp::__py_comp_assert_impl_into_iter(&into_iterator); into_iterator.into_iter().map(move |(_, x)| (*a, *x)) }) } else { None } } else { None }).flatten() }.collect();
    assert_eq!(items, vec![(3, 11), (4, 11)]);
}

#[test]
fn for_if_let_if_if_for() {
    let iterable1 = &[(1, 11), (2, 12), (3, 13), (4, 14), (5, 15)];
    let iterable2 = &[(1, 11)];
    assert_eq!(compile("(*a, *x); for (a, b) in iterable1; if let 2..=5 = a; if *b >= 13 && *b <= 15; if *b >= 14 && *b <= 14; for (_, x) in iterable2").unwrap(), "{ let into_iterator = iterable1; ::py_comp::__py_comp_assert_impl_into_iter(&into_iterator); into_iterator.into_iter().filter_map(move |(a, b)| if let 2..=5 = a { if *b >= 13 && *b <= 15 { if *b >= 14 && *b <= 14 { Some({ let into_iterator = iterable2; ::py_comp::__py_comp_assert_impl_into_iter(&into_iterator); into_iterator.into_iter().map(move |(_, x)| (*a, *x)) }) } else { None } } else { None } } else { None }).flatten() }");
    let items: Vec<(i32, i32)> = { let into_iterator = iterable1; ::py_comp::__py_comp_assert_impl_into_iter(&into_iterator); into_iterator.into_iter().filter_map(move |(a, b)| if let 2..=5 = a { if *b >= 13 && *b <= 15 { if *b >= 14 && *b <= 14 { Some({ let into_iterator = iterable2; ::py_comp::__py_comp_assert_impl_into_iter(&into_iterator); into_iterator.into_iter().map(move |(_, x)| (*a, *x)) }) } else { None } } else { None } } else { None }).flatten() }.collect();
    assert_eq!(items, vec![(4, 11)]);
}

#[test]
fn for_if_let_if_if_if_let_for() {
    let iterable1 = &[(1, 11), (2, 12), (3, 13), (4, 14), (5, 15)];
    let iterable2 = &[(1, 11)];
    assert_eq!(compile("(*a, *x); for (a, b) in iterable1; if let 2..=5 = a; if *b >= 13 && *b <= 15; if *b >= 13 && *b <= 14; if let 11..=13 = b; for (_, x) in iterable2").unwrap(), "{ let into_iterator = iterable1; ::py_comp::__py_comp_assert_impl_into_iter(&into_iterator); into_iterator.into_iter().filter_map(move |(a, b)| if let 2..=5 = a { if *b >= 13 && *b <= 15 { if *b >= 13 && *b <= 14 { if let 11..=13 = b { Some({ let into_iterator = iterable2; ::py_comp::__py_comp_assert_impl_into_iter(&into_iterator); into_iterator.into_iter().map(move |(_, x)| (*a, *x)) }) } else { None } } else { None } } else { None } } else { None }).flatten() }");
    let items: Vec<(i32, i32)> = { let into_iterator = iterable1; ::py_comp::__py_comp_assert_impl_into_iter(&into_iterator); into_iterator.into_iter().filter_map(move |(a, b)| if let 2..=5 = a { if *b >= 13 && *b <= 15 { if *b >= 13 && *b <= 14 { if let 11..=13 = b { Some({ let into_iterator = iterable2; ::py_comp::__py_comp_assert_impl_into_iter(&into_iterator); into_iterator.into_iter().map(move |(_, x)| (*a, *x)) }) } else { None } } else { None } } else { None } } else { None }).flatten() }.collect();
    assert_eq!(items, vec![(3, 11)]);
}

#[test]
fn for_if_let_if_let_for() {
    let iterable1 = &[(1, 11), (2, 12), (3, 13), (4, 14), (5, 15)];
    let iterable2 = &[(1, 11)];
    assert_eq!(compile("(*a, *x); for (a, b) in iterable1; if let 2..=5 = a; if let 11..=14 = b; for (_, x) in iterable2").unwrap(), "{ let into_iterator = iterable1; ::py_comp::__py_comp_assert_impl_into_iter(&into_iterator); into_iterator.into_iter().filter_map(move |(a, b)| if let 2..=5 = a { if let 11..=14 = b { Some({ let into_iterator = iterable2; ::py_comp::__py_comp_assert_impl_into_iter(&into_iterator); into_iterator.into_iter().map(move |(_, x)| (*a, *x)) }) } else { None } } else { None }).flatten() }");
    let items: Vec<(i32, i32)> = { let into_iterator = iterable1; ::py_comp::__py_comp_assert_impl_into_iter(&into_iterator); into_iterator.into_iter().filter_map(move |(a, b)| if let 2..=5 = a { if let 11..=14 = b { Some({ let into_iterator = iterable2; ::py_comp::__py_comp_assert_impl_into_iter(&into_iterator); into_iterator.into_iter().map(move |(_, x)| (*a, *x)) }) } else { None } } else { None }).flatten() }.collect();
    assert_eq!(items, vec![(2, 11), (3, 11), (4, 11)]);
}

#[test]
fn for_if_let_if_let_if_for() {
    let iterable1 = &[(1, 11), (2, 12), (3, 13), (4, 14), (5, 15)];
    let iterable2 = &[(1, 11)];
    assert_eq!(compile("(*a, *x); for (a, b) in iterable1; if let 2..=5 = a; if let 11..=14 = b; if *a >= 2 && *a <= 3; for (_, x) in iterable2").unwrap(), "{ let into_iterator = iterable1; ::py_comp::__py_comp_assert_impl_into_iter(&into_iterator); into_iterator.into_iter().filter_map(move |(a, b)| if let 2..=5 = a { if let 11..=14 = b { if *a >= 2 && *a <= 3 { Some({ let into_iterator = iterable2; ::py_comp::__py_comp_assert_impl_into_iter(&into_iterator); into_iterator.into_iter().map(move |(_, x)| (*a, *x)) }) } else { None } } else { None } } else { None }).flatten() }");
    let items: Vec<(i32, i32)> = { let into_iterator = iterable1; ::py_comp::__py_comp_assert_impl_into_iter(&into_iterator); into_iterator.into_iter().filter_map(move |(a, b)| if let 2..=5 = a { if let 11..=14 = b { if *a >= 2 && *a <= 3 { Some({ let into_iterator = iterable2; ::py_comp::__py_comp_assert_impl_into_iter(&into_iterator); into_iterator.into_iter().map(move |(_, x)| (*a, *x)) }) } else { None } } else { None } } else { None }).flatten() }.collect();
    assert_eq!(items, vec![(2, 11), (3, 11)]);
}

#[test]
fn for_if_let_if_let_if_if_for() {
    let iterable1 = &[(1, 11), (2, 12), (3, 13), (4, 14), (5, 15)];
    let iterable2 = &[(1, 11)];
    assert_eq!(compile("(*a, *x); for (a, b) in iterable1; if let 2..=5 = a; if let 11..=14 = b; if *a >=2 && *a <= 3; if *a >=3 && *a <= 4; for (_, x) in iterable2").unwrap(), "{ let into_iterator = iterable1; ::py_comp::__py_comp_assert_impl_into_iter(&into_iterator); into_iterator.into_iter().filter_map(move |(a, b)| if let 2..=5 = a { if let 11..=14 = b { if *a >=2 && *a <= 3 { if *a >=3 && *a <= 4 { Some({ let into_iterator = iterable2; ::py_comp::__py_comp_assert_impl_into_iter(&into_iterator); into_iterator.into_iter().map(move |(_, x)| (*a, *x)) }) } else { None } } else { None } } else { None } } else { None }).flatten() }");
    let items: Vec<(i32, i32)> = { let into_iterator = iterable1; ::py_comp::__py_comp_assert_impl_into_iter(&into_iterator); into_iterator.into_iter().filter_map(move |(a, b)| if let 2..=5 = a { if let 11..=14 = b { if *a >=2 && *a <= 3 { if *a >=3 && *a <= 4 { Some({ let into_iterator = iterable2; ::py_comp::__py_comp_assert_impl_into_iter(&into_iterator); into_iterator.into_iter().map(move |(_, x)| (*a, *x)) }) } else { None } } else { None } } else { None } } else { None }).flatten() }.collect();
    assert_eq!(items, vec![(3, 11)]);
}
