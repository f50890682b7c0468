use hake::map::{copy_param, AxisMap, Param};
use hake::util::{pick, sample};
use hake::value::Value;

fn choice(n: usize) -> Value {
    Value::Choice((0..n).map(|i| format!("c{}", i)).collect())
}

fn three_two_four() -> AxisMap {
    let mut map = AxisMap::new();
    map.add(String::from("A"), Value::IntRange(0, 2, 1));
    map.add(String::from("B"), choice(2));
    map.add(String::from("C"), Value::IntRange(10, 40, 10));
    map
}

fn vector(a: i64, b: usize, c: i64) -> Param {
    vec![
        (String::from("A"), Value::Int(a)),
        (String::from("B"), Value::Val(format!("c{}", b))),
        (String::from("C"), Value::Int(c)),
    ]
}

#[test]
fn lengths_multiply() {
    let map = three_two_four();
    assert_eq!(map.len(), 24);
    assert_eq!(map.checked_len(), Some(24));
    assert_eq!(AxisMap::new().len(), 1);
}

#[test]
fn first_and_last_vector() {
    let map = three_two_four();
    assert_eq!(map.index(0), vector(0, 0, 10));
    assert_eq!(map.index(23), vector(2, 1, 40));
}

#[test]
fn first_axis_changes_fastest() {
    let map = three_two_four();
    assert_eq!(map.index(1), vector(1, 0, 10));
    assert_eq!(map.index(2), vector(2, 0, 10));
    assert_eq!(map.index(3), vector(0, 1, 10));
    assert_eq!(map.index(6), vector(0, 0, 20));
    assert_eq!(map.index(17), vector(2, 1, 30));
}

#[test]
fn index_wraps_beyond_the_size() {
    let map = three_two_four();
    assert_eq!(map.index(24), map.index(0));
}

#[test]
fn walk_visits_every_number_once_in_order() {
    let map = three_two_four();
    let mut walk = map.iter();
    let mut seen: Vec<Param> = Vec::new();
    let mut n = 0;
    loop {
        match walk.next() {
            Some(p) => {
                assert_eq!(p, map.index(n));
                assert!(!seen.contains(&p));
                seen.push(p);
                n += 1;
                assert_eq!(walk.idx, n);
            }
            None => break,
        }
    }
    assert_eq!(n, 24);
    assert_eq!(walk.next(), None);
    assert_eq!(walk.idx, 24);
}

#[test]
fn sweep_of_two_axes_in_order() {
    let mut map = AxisMap::new();
    map.add(String::from("X"), Value::IntRange(1, 3, 1));
    map.add(
        String::from("Y"),
        Value::Choice(vec![String::from("a"), String::from("b")]),
    );
    let want = [(1, "a"), (2, "a"), (3, "a"), (1, "b"), (2, "b"), (3, "b")];
    assert_eq!(map.len(), 6);
    for (i, (x, y)) in want.iter().enumerate() {
        assert_eq!(
            map.index(i),
            vec![
                (String::from("X"), Value::Int(*x)),
                (String::from("Y"), Value::Val(String::from(*y))),
            ]
        );
    }
}

#[test]
fn checked_len_refuses_what_cannot_be_walked() {
    let mut map = AxisMap::new();
    map.add(String::from("A"), Value::IntRange(0, 10, 0));
    assert_eq!(map.checked_len(), None);
    let mut empty = AxisMap::new();
    empty.add(String::from("A"), Value::Choice(vec![]));
    empty.add(String::from("B"), Value::IntRange(0, 9, 1));
    assert_eq!(empty.checked_len(), Some(0));
    let mut huge = AxisMap::new();
    huge.add(String::from("A"), Value::IntRange(0, i64::MAX, 1));
    huge.add(String::from("B"), Value::IntRange(0, i64::MAX, 1));
    huge.add(String::from("C"), Value::IntRange(0, i64::MAX, 1));
    assert_eq!(huge.checked_len(), None);
}

#[test]
fn add_keeps_order_and_duplicates() {
    let mut map = AxisMap::new();
    map.add(String::from("X"), Value::Val(String::from("1")));
    map.add(String::from("X"), Value::Val(String::from("2")));
    assert_eq!(map.data.len(), 2);
    assert_eq!(
        map.index(0),
        vec![
            (String::from("X"), Value::Val(String::from("1"))),
            (String::from("X"), Value::Val(String::from("2"))),
        ]
    );
    assert_eq!(
        map.get(&String::from("X")),
        Some(&Value::Val(String::from("2")))
    );
    assert_eq!(map.get(&String::from("Y")), None);
}

#[test]
fn rand_gives_a_vector_of_the_map() {
    let map = three_two_four();
    let all: Vec<Param> = (0..24).map(|i| map.index(i)).collect();
    let mut hit = vec![false; 24];
    for _ in 0..2000 {
        let p = map.rand();
        let at = all.iter().position(|q| *q == p);
        assert!(at.is_some());
        hit[at.unwrap()] = true;
    }
    assert!(hit.iter().all(|h| *h));
}

#[test]
fn sample_picks_distinct_places() {
    let xs = vec![10, 20, 30, 40, 50];
    for _ in 0..500 {
        let picks = sample(&xs, 3);
        assert_eq!(picks.len(), 3);
        assert!(picks.iter().all(|i| *i < 5));
        assert!(picks[0] != picks[1] && picks[1] != picks[2] && picks[0] != picks[2]);
    }
    let mut all = sample(&xs, 5);
    all.sort();
    assert_eq!(all, vec![0, 1, 2, 3, 4]);
    assert_eq!(sample(&xs, 0), Vec::<usize>::new());
}

#[test]
fn sample_reaches_every_place() {
    let xs = vec![0u8; 4];
    let mut first = vec![false; 4];
    for _ in 0..1000 {
        first[sample(&xs, 1)[0]] = true;
    }
    assert!(first.iter().all(|h| *h));
}

#[test]
fn copy_param_is_equal() {
    let p = vector(1, 1, 20);
    assert_eq!(copy_param(&p), p);
}

#[test]
fn pick_takes_the_drawn_place_among_the_free_ones() {
    assert_eq!(pick(5, &vec![0, 0, 0]), vec![0, 1, 2]);
    assert_eq!(pick(5, &vec![4, 3, 2, 1, 0]), vec![4, 3, 2, 1, 0]);
    assert_eq!(pick(5, &vec![2, 2, 2]), vec![2, 3, 4]);
    assert_eq!(pick(5, &vec![1, 3, 0, 1]), vec![1, 4, 0, 3]);
    assert_eq!(pick(5, &vec![]), Vec::<usize>::new());
    assert_eq!(pick(1, &vec![0]), vec![0]);
}

#[test]
fn an_axis_without_values_is_walked_to_nothing() {
    let mut map = AxisMap::new();
    map.add(String::from("A"), Value::IntRange(0, 2, 1));
    map.add(String::from("B"), Value::Choice(vec![]));
    assert_eq!(map.len(), 0);
    let mut walk = map.iter();
    assert_eq!(walk.next(), None);
    assert_eq!(walk.idx, 0);
}
