use hake::float::Float;
use hake::map::AxisMap;
use hake::read::{parse_number, FloatReading};
use hake::value::Value;

fn f(x: f64) -> Float {
    Float::from_bits(x.to_bits())
}

fn grid(begin: f64, end: f64, step: f64) -> Vec<Float> {
    let n = ((end - begin) / step + 1.0).floor() as usize;
    (0..n).map(|i| f(begin + step * i as f64)).collect()
}

/// What the caller of the library does for a range of binary64 numbers.
fn read_floats(fields: &[String]) -> FloatReading {
    let numbers: Vec<Option<f64>> = fields.iter().map(|s| s.parse::<f64>().ok()).collect();
    let (step, points) = match numbers.as_slice() {
        [Some(a), Some(b)] => {
            let step = (b - a) / 10.0;
            (step, if a <= b { grid(*a, *b, step) } else { vec![] })
        }
        [Some(a), Some(m), Some(b)] => (m - a, grid(*a, *b, m - a)),
        _ => (0.0, vec![]),
    };
    FloatReading {
        numbers: numbers.iter().map(|n| n.map(f)).collect(),
        step: f(step),
        points,
    }
}

fn from(s: &str) -> Result<Value, String> {
    let val = String::from(s);
    let reading = match Value::float_fields(&val) {
        Some(fields) => read_floats(&fields),
        None => FloatReading::none(),
    };
    Value::from(&val, reading)
}

fn parse_pair(s: &str) -> Result<(String, Value), String> {
    let text = String::from(s);
    let reading = match AxisMap::pair_float_fields(&text) {
        Some(fields) => read_floats(&fields),
        None => FloatReading::none(),
    };
    AxisMap::parse_pair(&text, reading)
}

fn float_range(begin: f64, end: f64, step: f64) -> Value {
    Value::FloatRange(f(begin), f(end), f(step), grid(begin, end, step))
}

#[test]
fn value_from() {
    assert_eq!(from("1"), Ok(Value::Val(String::from("1"))));
    assert_eq!(
        from("1,2,3,banana"),
        Ok(Value::Choice(vec![
            String::from("1"),
            String::from("2"),
            String::from("3"),
            String::from("banana"),
        ]))
    );
    assert_eq!(from("1..3"), Ok(Value::IntRange(1, 3, 1)));
    assert_eq!(from("1..5..10"), Ok(Value::IntRange(1, 10, 4)));
    assert_eq!(from("0...10"), Ok(float_range(0.0, 10.0, 1.0)));
    assert_eq!(from("0...2...10"), Ok(float_range(0.0, 10.0, 2.0)));
    assert_eq!(from("0...-1...-5"), Ok(float_range(0.0, -5.0, -1.0)));
}

#[test]
fn value_len() {
    assert_eq!(
        Value::Choice(vec!["a".to_string(), "a".to_string()]).len(),
        2
    );
    assert_eq!(Value::IntRange(0, 10, 1).len(), 11);
    assert_eq!(float_range(0.0, 10.0, 1.0).len(), 11);
    assert_eq!(float_range(0.0, 10.0, 2.0).len(), 6);
}

#[test]
fn map_parse_pair() {
    assert_eq!(
        parse_pair("KEY=VALUE"),
        Ok((String::from("KEY"), Value::Val(String::from("VALUE"))))
    );
    assert_eq!(
        parse_pair("favorite=apple,banana,lemon"),
        Ok((
            String::from("favorite"),
            Value::Choice(vec![
                String::from("apple"),
                String::from("banana"),
                String::from("lemon"),
            ])
        ))
    );
}

#[test]
fn float_range_points_are_exact() {
    match from("0...10") {
        Ok(Value::FloatRange(begin, end, step, points)) => {
            assert_eq!(begin, f(0.0));
            assert_eq!(end, f(10.0));
            assert_eq!(step, f(1.0));
            let want: Vec<Float> = (0..11).map(|i| f(i as f64)).collect();
            assert_eq!(points, want);
        }
        other => panic!("unexpected: {:?}", other),
    }
}

#[test]
fn three_dots_win_over_two() {
    assert!(matches!(from("1...5"), Ok(Value::FloatRange(_, _, _, _))));
    assert_eq!(
        Value::float_fields(&String::from("1...5")),
        Some(vec![String::from("1"), String::from("5")])
    );
    assert_eq!(Value::float_fields(&String::from("1..5")), None);
}

#[test]
fn four_dots_cut_at_the_first_three() {
    assert_eq!(
        Value::float_fields(&String::from("1....5")),
        Some(vec![String::from("1"), String::from(".5")])
    );
    assert_eq!(
        from("1....5"),
        Err(String::from(
            "Float-Range ... should be begin <= end: \"1....5\""
        ))
    );
}

#[test]
fn comma_list_is_a_choice_of_texts() {
    assert_eq!(
        from("1,2,3"),
        Ok(Value::Choice(vec![
            String::from("1"),
            String::from("2"),
            String::from("3"),
        ]))
    );
    assert_eq!(
        from("a,,b"),
        Ok(Value::Choice(vec![
            String::from("a"),
            String::from(""),
            String::from("b"),
        ]))
    );
}

#[test]
fn int_range_reads_and_rejects() {
    assert_eq!(from("1..3"), Ok(Value::IntRange(1, 3, 1)));
    assert_eq!(
        from("3..1"),
        Err(String::from("Int-Range .. should be begin <= end: \"3..1\""))
    );
    assert_eq!(from("10..8..0"), Ok(Value::IntRange(10, 0, -2)));
    assert_eq!(from("-5..-3"), Ok(Value::IntRange(-5, -3, 1)));
    assert_eq!(from("+1..+3"), Ok(Value::IntRange(1, 3, 1)));
}

#[test]
fn int_range_errors() {
    assert_eq!(
        from("1..1..5"),
        Err(String::from(
            "Int-Range .. has strange second value...? \"1..1..5\""
        ))
    );
    assert_eq!(
        from("1..3..0"),
        Err(String::from(
            "Int-Range .. has strange second value...? \"1..3..0\""
        ))
    );
    assert_eq!(
        from("1..2..3..4"),
        Err(String::from(
            "Int-Range .. should have 2 or 3 fields. See document."
        ))
    );
    assert_eq!(
        from("a..3"),
        Err(String::from("Cannot parse as number: \"a\""))
    );
    assert_eq!(
        from("1..b"),
        Err(String::from("Cannot parse as number: \"b\""))
    );
    assert_eq!(
        from("1..2..c"),
        Err(String::from("Cannot parse as number: \"c\""))
    );
    assert_eq!(
        from("..3"),
        Err(String::from("Cannot parse as number: \"\""))
    );
}

#[test]
fn int_range_step_that_does_not_fit() {
    assert_eq!(
        from("-9223372036854775808..9223372036854775807..0"),
        Err(String::from(
            "Int-Range .. has strange second value...? \"-9223372036854775808..9223372036854775807..0\""
        ))
    );
}

#[test]
fn float_range_errors() {
    assert_eq!(
        from("5...1"),
        Err(String::from(
            "Float-Range ... should be begin <= end: \"5...1\""
        ))
    );
    assert_eq!(
        from("1...2...3...4"),
        Err(String::from(
            "Float-Range ... should have 2 or 3 fields. See document."
        ))
    );
    assert_eq!(
        from("x...2"),
        Err(String::from("Cannot parse as number: \"x\""))
    );
    assert_eq!(
        from("1...y"),
        Err(String::from("Cannot parse as number: \"y\""))
    );
    assert_eq!(
        from("1...2...z"),
        Err(String::from("Cannot parse as number: \"z\""))
    );
}

#[test]
fn float_range_without_a_reading_has_no_numbers() {
    assert_eq!(
        Value::from(&String::from("0...10"), FloatReading::none()),
        Err(String::from("Cannot parse as number: \"0\""))
    );
}

#[test]
fn parse_number_quotes_what_it_cannot_read() {
    assert_eq!(parse_number("42"), Ok(42));
    assert_eq!(parse_number("-7"), Ok(-7));
    assert_eq!(
        parse_number("a\"b"),
        Err(String::from("Cannot parse as number: \"a\\\"b\""))
    );
    assert_eq!(
        parse_number("9223372036854775808"),
        Err(String::from(
            "Cannot parse as number: \"9223372036854775808\""
        ))
    );
}

#[test]
fn pair_is_cut_at_the_first_equals_sign() {
    assert_eq!(
        parse_pair("build"),
        Err(String::from("Parse Error: \"build\""))
    );
    assert_eq!(
        parse_pair("a=b=c"),
        Ok((String::from("a"), Value::Val(String::from("b=c"))))
    );
    assert_eq!(
        parse_pair("K=a=b"),
        Ok((String::from("K"), Value::Val(String::from("a=b"))))
    );
    assert_eq!(
        parse_pair("K=="),
        Ok((String::from("K"), Value::Val(String::from("="))))
    );
    assert_eq!(
        parse_pair("K=x=1,y=2"),
        Ok((
            String::from("K"),
            Value::Choice(vec![String::from("x=1"), String::from("y=2")])
        ))
    );
    assert_eq!(
        parse_pair("K="),
        Ok((String::from("K"), Value::Val(String::new())))
    );
    assert_eq!(
        parse_pair("X=3..1"),
        Err(String::from("Int-Range .. should be begin <= end: \"3..1\""))
    );
    assert_eq!(
        AxisMap::pair_float_fields(&String::from("K=a=0...1")),
        Some(vec![String::from("a=0"), String::from("1")])
    );
    assert_eq!(AxisMap::pair_float_fields(&String::from("0...1")), None);
    assert_eq!(
        parse_pair("X=1..3"),
        Ok((String::from("X"), Value::IntRange(1, 3, 1)))
    );
    assert_eq!(
        parse_pair("lr=0...1"),
        Ok((String::from("lr"), float_range(0.0, 1.0, 0.1)))
    );
    assert_eq!(
        parse_pair("=x"),
        Ok((String::from(""), Value::Val(String::from("x"))))
    );
}

#[test]
fn index_gives_single_values_within_the_range() {
    let range = Value::IntRange(1, 10, 4);
    assert_eq!(range.len(), 3);
    assert_eq!(range.index(0), Value::Int(1));
    assert_eq!(range.index(1), Value::Int(5));
    assert_eq!(range.index(2), Value::Int(9));
    let down = Value::IntRange(10, 0, -3);
    assert_eq!(down.len(), 4);
    assert_eq!(down.index(3), Value::Int(1));
    let choice = Value::Choice(vec![String::from("a"), String::from("b")]);
    assert_eq!(choice.index(1), Value::Val(String::from("b")));
    let floats = float_range(0.0, 1.0, 0.25);
    assert_eq!(floats.len(), 5);
    assert_eq!(floats.index(3), Value::Float(f(0.75)));
    assert_eq!(Value::Int(7).index(0), Value::Int(7));
    assert_eq!(Value::Val(String::from("v")).len(), 1);
    assert_eq!(Value::Float(f(1.5)).index(0), Value::Float(f(1.5)));
}

#[test]
fn unit_range_has_end_minus_begin_plus_one_values() {
    assert_eq!(Value::IntRange(-3, 4, 1).len(), 8);
    assert_eq!(Value::IntRange(5, 5, 1).len(), 1);
}

#[test]
fn neighbours_differ_by_the_step() {
    let range = Value::IntRange(2, 20, 6);
    for i in 0..range.len() - 1 {
        match (range.index(i), range.index(i + 1)) {
            (Value::Int(a), Value::Int(b)) => assert_eq!(b - a, 6),
            other => panic!("unexpected: {:?}", other),
        }
    }
}

#[test]
fn count_is_none_for_a_range_that_leads_nowhere() {
    assert_eq!(Value::IntRange(0, 10, 0).count(), None);
    assert_eq!(Value::IntRange(0, 10, -1).count(), None);
    assert_eq!(Value::IntRange(10, 0, 1).count(), None);
    assert_eq!(Value::IntRange(0, 10, 3).count(), Some(4));
    assert_eq!(Value::Choice(vec![]).count(), Some(0));
    assert_eq!(
        Value::IntRange(i64::MIN, i64::MAX, i64::MAX).count(),
        Some(3)
    );
}

#[test]
fn copy_is_equal() {
    let v = float_range(0.0, 1.0, 0.5);
    assert_eq!(v.copy(), v);
    let c = Value::Choice(vec![String::from("x")]);
    assert_eq!(c.copy(), c);
}

#[test]
fn proper_ranges() {
    assert!(Value::IntRange(1, 3, 1).is_proper());
    assert!(!Value::IntRange(3, 1, 1).is_proper());
    assert!(!Value::IntRange(1, 3, 0).is_proper());
    assert!(float_range(0.0, 10.0, 1.0).is_proper());
    assert!(float_range(0.0, -5.0, -1.0).is_proper());
    assert!(!Value::FloatRange(f(0.0), f(5.0), f(0.0), vec![]).is_proper());
    assert!(!Value::FloatRange(f(0.0), f(5.0), f(-0.0), vec![]).is_proper());
    assert!(!Value::FloatRange(f(0.0), f(5.0), f(f64::NAN), vec![]).is_proper());
    assert!(!Value::FloatRange(f(5.0), f(0.0), f(1.0), vec![]).is_proper());
    assert!(Value::FloatRange(f(0.0), f(5.0), f(-1.0), vec![]).is_proper());
    assert!(Value::Val(String::from("x")).is_proper());
    let reading = FloatReading {
        numbers: vec![Some(f(0.0)), Some(f(0.0)), Some(f(5.0))],
        step: f(0.0),
        points: vec![],
    };
    let flat = Value::from(&String::from("0...0...5"), reading).unwrap();
    assert!(!flat.is_proper());
    assert!(from("1...1").map(|v| v.is_proper()) == Ok(false));
    assert!(from("0...1").map(|v| v.is_proper()) == Ok(true));
    assert!(f(1.0).is_positive() && !f(-1.0).is_positive() && !f(0.0).is_positive());
    assert!(f(0.0).is_zero() && f(-0.0).is_zero() && !f(1.0e-320).is_zero());
    assert!(!f(f64::NAN).is_positive() && f(f64::INFINITY).is_positive());
}
