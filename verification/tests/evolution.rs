use hake::de::{clip, cross};
use hake::float::Float;
use hake::map::{AxisMap, Param};
use hake::metric::Metric;
use hake::options::Objective;
use hake::pool::{select, Member};
use hake::supervisor::{Action, Phase, Plan, Search, Sweep};
use hake::util::Total;
use hake::value::Value;

fn f(x: f64) -> Float {
    Float::from_bits(x.to_bits())
}

fn grid(begin: f64, end: f64, step: f64) -> Vec<Float> {
    let n = ((end - begin) / step + 1.0).floor() as usize;
    (0..n).map(|i| f(begin + step * i as f64)).collect()
}

fn axes() -> AxisMap {
    let mut map = AxisMap::new();
    map.add(String::from("tool"), Value::Val(String::from("gcc")));
    map.add(String::from("n"), Value::IntRange(0, 10, 1));
    map.add(
        String::from("lr"),
        Value::FloatRange(f(0.0), f(1.0), f(0.1), grid(0.0, 1.0, 0.1)),
    );
    map.add(
        String::from("opt"),
        Value::Choice(vec![String::from("O1"), String::from("O2")]),
    );
    map
}

fn vector(n: i64, lr: f64, opt: &str) -> Param {
    vec![
        (String::from("tool"), Value::Val(String::from("gcc"))),
        (String::from("n"), Value::Int(n)),
        (String::from("lr"), Value::Float(f(lr))),
        (String::from("opt"), Value::Val(String::from(opt))),
    ]
}

fn mutant(n: i64, lr: f64) -> Vec<Value> {
    vec![
        Value::Val(String::new()),
        Value::Int(n),
        Value::Float(f(lr)),
        Value::Val(String::new()),
    ]
}

fn draws(u: f64) -> Vec<Float> {
    vec![f(u); 4]
}

fn member(n: i64, metric: f64) -> Member {
    (
        vector(n, 0.5, "O1"),
        Metric {
            metric: String::from("err"),
            value: f(metric),
        },
    )
}

#[test]
fn clip_raises_and_lowers() {
    assert_eq!(clip(5, 0, 10), 5);
    assert_eq!(clip(-5, 0, 10), 0);
    assert_eq!(clip(15, 0, 10), 10);
    assert_eq!(clip(0, 0, 10), 0);
    assert_eq!(clip(10, 0, 10), 10);
    assert_eq!(clip(5, 10, 0), 0);
}

#[test]
fn float_clip_raises_and_lowers() {
    assert_eq!(f(0.5).clip(f(0.0), f(1.0)), f(0.5));
    assert_eq!(f(-0.5).clip(f(0.0), f(1.0)), f(0.0));
    assert_eq!(f(1.5).clip(f(0.0), f(1.0)), f(1.0));
    assert!(f(f64::NAN).clip(f(0.0), f(1.0)).is_nan());
    assert_eq!(f(-0.0).clip(f(0.0), f(1.0)), f(-0.0));
}

#[test]
fn no_crossing_gives_the_target() {
    let x = vector(3, 0.25, "O1");
    let a = vector(7, 0.75, "O2");
    let z = cross(&x, &a, &mutant(99, 9.0), &axes(), f(0.0), &draws(0.5), None);
    assert_eq!(z, x);
}

#[test]
fn full_crossing_is_a_pure_blend() {
    let x = vector(3, 0.25, "O1");
    let a = vector(7, 0.75, "O2");
    let z = cross(&x, &a, &mutant(6, 0.5), &axes(), f(1.0), &draws(0.5), None);
    assert_eq!(z, vector(6, 0.5, "O2"));
}

#[test]
fn crossed_ranges_are_clipped() {
    let x = vector(3, 0.25, "O1");
    let a = vector(7, 0.75, "O2");
    let z = cross(&x, &a, &mutant(99, -3.0), &axes(), f(1.0), &draws(0.0), None);
    assert_eq!(z, vector(10, 0.0, "O2"));
    let z = cross(&x, &a, &mutant(-99, 3.0), &axes(), f(1.0), &draws(0.0), None);
    assert_eq!(z, vector(0, 1.0, "O2"));
}

#[test]
fn forced_place_crosses_whatever_its_draw() {
    let x = vector(3, 0.25, "O1");
    let a = vector(7, 0.75, "O2");
    let z = cross(&x, &a, &mutant(6, 0.5), &axes(), f(0.0), &draws(0.9), Some(1));
    assert_eq!(z, vector(6, 0.25, "O1"));
    let z = cross(&x, &a, &mutant(6, 0.5), &axes(), f(0.0), &draws(0.9), Some(3));
    assert_eq!(z, vector(3, 0.25, "O2"));
    let z = cross(&x, &a, &mutant(6, 0.5), &axes(), f(0.0), &draws(0.9), Some(9));
    assert_eq!(z, x);
}

#[test]
fn draw_equal_to_the_rate_crosses() {
    let x = vector(3, 0.25, "O1");
    let a = vector(7, 0.75, "O2");
    let z = cross(&x, &a, &mutant(6, 0.5), &axes(), f(0.5), &draws(0.5), None);
    assert_eq!(z, vector(6, 0.5, "O2"));
}

#[test]
fn single_value_axis_keeps_its_own_value() {
    let mut x = vector(3, 0.25, "O1");
    x[0].1 = Value::Val(String::from("clang"));
    let a = vector(7, 0.75, "O2");
    let z = cross(&x, &a, &mutant(6, 0.5), &axes(), f(1.0), &draws(0.0), None);
    assert_eq!(z[0], (String::from("tool"), Value::Val(String::from("gcc"))));
}

#[test]
fn total_orders_numbers() {
    assert!(Total(f(1.0)).lt(&Total(f(2.0))));
    assert!(!Total(f(2.0)).lt(&Total(f(2.0))));
    assert!(Total(f(2.0)).le(&Total(f(2.0))));
    assert!(Total(f(-0.0)).le(&Total(f(0.0))));
    assert!(Total(f(0.0)).le(&Total(f(-0.0))));
    assert!(Total(f(f64::NEG_INFINITY)).lt(&Total(f(-1.0e300))));
}

#[test]
fn select_minimize_keeps_the_smallest() {
    let pool = vec![member(0, 3.0), member(1, 1.0), member(2, 2.0), member(3, -1.0)];
    let kept = select(pool, Objective::Minimize, 2);
    assert_eq!(kept, vec![member(3, -1.0), member(1, 1.0)]);
}

#[test]
fn select_maximize_keeps_the_largest() {
    let pool = vec![member(0, 3.0), member(1, 1.0), member(2, 2.0), member(3, -1.0)];
    let kept = select(pool, Objective::Maximize, 3);
    assert_eq!(kept, vec![member(0, 3.0), member(2, 2.0), member(1, 1.0)]);
}

#[test]
fn select_keeps_ties_in_order_and_turns_them_round_for_maximize() {
    let pool = vec![member(0, 1.0), member(1, 0.0), member(2, 1.0), member(3, 1.0)];
    let kept = select(pool, Objective::Minimize, 10);
    assert_eq!(
        kept,
        vec![member(1, 0.0), member(0, 1.0), member(2, 1.0), member(3, 1.0)]
    );
    let pool = vec![member(0, 1.0), member(1, 0.0), member(2, 1.0), member(3, 1.0)];
    let kept = select(pool, Objective::Maximize, 10);
    assert_eq!(
        kept,
        vec![member(3, 1.0), member(2, 1.0), member(0, 1.0), member(1, 0.0)]
    );
}

#[test]
fn select_of_nothing_and_to_nothing() {
    assert_eq!(select(vec![], Objective::Minimize, 4), vec![]);
    assert_eq!(select(vec![member(0, 1.0)], Objective::Minimize, 0), vec![]);
}

#[test]
fn select_agrees_with_a_stable_sort() {
    let values = [0.5, -2.0, 7.25, 0.5, 3.0, -2.0, 0.0, 100.0, 1.0e-9];
    let pool: Vec<Member> = values
        .iter()
        .enumerate()
        .map(|(i, v)| member(i as i64, *v))
        .collect();
    let mut want = pool.clone();
    want.sort_by(|a, b| {
        f64::from_bits(a.1.value.to_bits())
            .partial_cmp(&f64::from_bits(b.1.value.to_bits()))
            .unwrap()
    });
    assert_eq!(select(pool.clone(), Objective::Minimize, 100), want);
    want.reverse();
    want.truncate(4);
    assert_eq!(select(pool, Objective::Maximize, 4), want);
}

#[test]
fn sweep_starts_in_order_and_keeps_the_limit() {
    let mut map = AxisMap::new();
    map.add(String::from("X"), Value::IntRange(1, 3, 1));
    let mut sweep = Sweep::new(&map, 2);
    let x = |v: i64| vec![(String::from("X"), Value::Int(v))];
    assert_eq!(sweep.next(), Action::Spawn(0, x(1)));
    assert_eq!(sweep.next(), Action::Spawn(1, x(2)));
    assert_eq!(sweep.running, 2);
    assert_eq!(sweep.next(), Action::Join);
    assert_eq!(sweep.next(), Action::Spawn(2, x(3)));
    assert_eq!(sweep.next(), Action::Join);
    assert_eq!(sweep.next(), Action::Join);
    assert_eq!(sweep.next(), Action::Idle);
    assert_eq!(sweep.next(), Action::Idle);
    assert_eq!(sweep.running, 0);
}

#[test]
fn sweep_with_one_worker_alternates() {
    let mut map = AxisMap::new();
    map.add(String::from("X"), Value::IntRange(1, 2, 1));
    let mut sweep = Sweep::new(&map, 1);
    assert!(matches!(sweep.next(), Action::Spawn(0, _)));
    assert_eq!(sweep.next(), Action::Join);
    assert!(matches!(sweep.next(), Action::Spawn(1, _)));
    assert_eq!(sweep.next(), Action::Join);
    assert_eq!(sweep.next(), Action::Idle);
}

#[test]
fn sweep_never_runs_more_than_the_limit() {
    let mut map = AxisMap::new();
    map.add(String::from("X"), Value::IntRange(1, 50, 1));
    let mut sweep = Sweep::new(&map, 4);
    let mut started = 0;
    loop {
        let action = sweep.next();
        assert!(sweep.running <= 4);
        match action {
            Action::Spawn(id, _) => {
                assert_eq!(id, started);
                started += 1;
            }
            Action::Join => {}
            Action::Idle => break,
        }
    }
    assert_eq!(started, 50);
}

fn metric(v: f64) -> Option<Metric> {
    Some(Metric {
        metric: String::from("err"),
        value: f(v),
    })
}

#[test]
fn search_seeds_then_breeds_then_is_done() {
    let map = axes();
    let mut search = Search::new(Objective::Minimize, 4, 1, 2);
    assert_eq!(search.plan(), Plan::Seed);
    search.seed(&map);
    assert_eq!(search.phase, Phase::Running);
    assert_eq!(search.queue.len(), 4);
    let all: Vec<Param> = (0..map.len()).map(|i| map.index(i)).collect();
    assert!(search.queue.iter().all(|p| all.contains(p)));

    let mut next_metric = 4.0;
    let mut ids = Vec::new();
    loop {
        match search.next() {
            Action::Spawn(id, p) => {
                assert_eq!(search.running.last(), Some(&p));
                ids.push(id);
            }
            Action::Join => {
                search.joined(metric(next_metric));
                next_metric -= 1.0;
            }
            Action::Idle => break,
        }
        assert!(search.running.len() <= 2);
    }
    assert_eq!(ids, vec![0, 1, 2, 3]);
    assert_eq!(search.pool.len(), 4);
    search.end_generation();
    assert_eq!(search.phase, Phase::Planning);
    assert_eq!(search.generation, 1);
    assert!(!search.finished);
    let kept: Vec<u64> = search.pool.iter().map(|m| m.1.value.to_bits()).collect();
    assert_eq!(
        kept,
        vec![
            1.0f64.to_bits(),
            2.0f64.to_bits(),
            3.0f64.to_bits(),
            4.0f64.to_bits()
        ]
    );
    assert_eq!(search.best(), Some(&search.pool[0]));

    assert_eq!(search.plan(), Plan::Breed);
    let picks = search.parents();
    assert_eq!(picks.len(), 4);
    for p in picks.iter() {
        assert_eq!(p.len(), 3);
        assert!(p.iter().all(|i| *i < 4));
        assert!(p[0] != p[1] && p[1] != p[2] && p[0] != p[2]);
    }
    let mutants: Vec<Vec<Value>> = (0..4).map(|_| mutant(5, 0.5)).collect();
    let all_draws: Vec<Vec<Float>> = (0..4).map(|_| draws(0.9)).collect();
    let xs: Vec<Param> = search.pool.iter().map(|m| m.0.clone()).collect();
    search.breed(&map, &picks, &mutants, &all_draws, f(0.0));
    assert_eq!(search.queue.len(), 4);
    for (i, z) in search.queue.iter().enumerate() {
        let changed: Vec<usize> = (0..4).filter(|p| z[*p] != xs[i][*p]).collect();
        assert!(changed.len() <= 1);
        for p in 0..4 {
            let a = &search.pool[picks[i][0]].0;
            let crossed = match p {
                0 => (String::from("tool"), Value::Val(String::from("gcc"))),
                1 => (String::from("n"), Value::Int(5)),
                2 => (String::from("lr"), Value::Float(f(0.5))),
                _ => a[3].clone(),
            };
            assert!(z[p] == xs[i][p] || z[p] == crossed);
        }
    }

    loop {
        match search.next() {
            Action::Spawn(id, _) => ids.push(id),
            Action::Join => search.joined(None),
            Action::Idle => break,
        }
    }
    assert_eq!(ids, vec![0, 1, 2, 3, 4, 5, 6, 7]);
    assert_eq!(search.pool.len(), 4);
    search.end_generation();
    assert!(search.finished);
    assert_eq!(search.plan(), Plan::Done);
}

#[test]
fn search_with_a_small_pool_is_starved() {
    let mut search = Search::new(Objective::Maximize, 2, 3, 1);
    assert_eq!(search.phase, Phase::Planning);
    search.phase = Phase::Running;
    search.queue.push(vector(1, 0.5, "O1"));
    assert!(matches!(search.next(), Action::Spawn(0, _)));
    assert_eq!(search.next(), Action::Join);
    search.joined(metric(1.0));
    assert_eq!(search.next(), Action::Idle);
    search.end_generation();
    assert_eq!(search.plan(), Plan::Starved);
    assert_eq!(search.best().map(|m| m.1.value), Some(f(1.0)));
}

#[test]
fn search_without_reports_seeds_again() {
    let map = axes();
    let mut search = Search::new(Objective::Minimize, 2, 0, 1);
    search.seed(&map);
    loop {
        match search.next() {
            Action::Spawn(_, _) => {}
            Action::Join => search.joined(None),
            Action::Idle => break,
        }
    }
    assert_eq!(search.pool.len(), 0);
    assert_eq!(search.best(), None);
    assert_eq!(search.plan(), Plan::Seed);
    search.end_generation();
    assert_eq!(search.plan(), Plan::Done);
}

#[test]
fn joined_pairs_the_oldest_vector_with_its_metric() {
    let mut search = Search::new(Objective::Minimize, 4, 0, 2);
    search.phase = Phase::Running;
    search.queue.push(vector(1, 0.1, "O1"));
    search.queue.push(vector(2, 0.2, "O2"));
    assert!(matches!(search.next(), Action::Spawn(0, _)));
    assert!(matches!(search.next(), Action::Spawn(1, _)));
    assert_eq!(search.next(), Action::Join);
    search.joined(metric(9.0));
    assert_eq!(search.next(), Action::Join);
    search.joined(metric(8.0));
    assert_eq!(search.pool[0].0, vector(1, 0.1, "O1"));
    assert_eq!(search.pool[0].1.value, f(9.0));
    assert_eq!(search.pool[1].0, vector(2, 0.2, "O2"));
    search.end_generation();
    assert_eq!(search.pool[0].0, vector(2, 0.2, "O2"));
}

#[test]
fn stopped_sweep_starts_nothing_more() {
    let mut map = AxisMap::new();
    map.add(String::from("X"), Value::IntRange(1, 50, 1));
    let mut sweep = Sweep::new(&map, 2);
    assert!(matches!(sweep.next(), Action::Spawn(0, _)));
    assert!(matches!(sweep.next(), Action::Spawn(1, _)));
    sweep.stop();
    assert_eq!(sweep.running, 2);
    assert_eq!(sweep.walk.idx, 50);
    assert_eq!(sweep.next(), Action::Join);
    assert_eq!(sweep.next(), Action::Join);
    assert_eq!(sweep.next(), Action::Idle);
    sweep.stop();
    assert_eq!(sweep.walk.idx, 50);
}

#[test]
fn sweep_over_an_axis_without_values_is_idle() {
    let mut map = AxisMap::new();
    map.add(String::from("X"), Value::Choice(vec![]));
    let mut sweep = Sweep::new(&map, 3);
    assert_eq!(sweep.next(), Action::Idle);
}
