use hake::float::Float;
use hake::message::{complaint, join};
use hake::number::{digit_of, parse_i64, parse_u64, render_i64, render_padded, render_u64};
use hake::options::parse_timeout;
use hake::text::{chars, contains, find_in, matches_at, split};

fn f(x: f64) -> Float {
    Float::from_bits(x.to_bits())
}

fn strings(xs: &[&str]) -> Vec<String> {
    xs.iter().map(|s| String::from(*s)).collect()
}

#[test]
fn split_agrees_with_the_standard_library() {
    let cases = [
        ("a=b", "="),
        ("a=b=c", "="),
        ("=", "="),
        ("", "="),
        ("abc", "="),
        ("1..3", ".."),
        ("1...3", ".."),
        ("1....3", ".."),
        ("1....3", "..."),
        ("......", "..."),
        (".....", ".."),
        ("a,b,,c,", ","),
        ("héllo,wörld", ","),
        ("aaa", "aa"),
        ("aaaa", "aa"),
        ("xaaay", "aa"),
    ];
    for (s, pat) in cases.iter() {
        let want: Vec<String> = s.split(pat).map(|x| x.to_string()).collect();
        assert_eq!(split(s, pat), want);
        assert_eq!(contains(s, pat), s.contains(pat));
    }
}

#[test]
fn split_examples() {
    assert_eq!(split("1..5..10", ".."), strings(&["1", "5", "10"]));
    assert_eq!(split("0...-1...-5", "..."), strings(&["0", "-1", "-5"]));
    assert_eq!(split("KEY=VALUE", "="), strings(&["KEY", "VALUE"]));
    assert_eq!(split("none", ","), strings(&["none"]));
}

#[test]
fn find_gives_the_first_place() {
    let s = chars("a..b..c");
    let pat = chars("..");
    assert_eq!(find_in(&s, &pat, 0), Some(1));
    assert_eq!(find_in(&s, &pat, 1), Some(1));
    assert_eq!(find_in(&s, &pat, 2), Some(4));
    assert_eq!(find_in(&s, &pat, 5), None);
    assert_eq!(find_in(&s, &pat, 99), None);
    assert!(matches_at(&s, &pat, 4));
    assert!(!matches_at(&s, &pat, 3));
    assert!(!matches_at(&s, &pat, 6));
    assert_eq!(chars("héllo"), vec!['h', 'é', 'l', 'l', 'o']);
}

#[test]
fn parse_i64_agrees_with_the_standard_library() {
    let cases = [
        "0",
        "7",
        "-7",
        "+7",
        "007",
        "-0",
        "",
        "-",
        "+",
        "--1",
        "+-1",
        "1 ",
        " 1",
        "1_000",
        "12a",
        "a12",
        "1.5",
        "9223372036854775807",
        "9223372036854775808",
        "-9223372036854775808",
        "-9223372036854775809",
        "99999999999999999999999999",
        "-99999999999999999999999999",
        "٣",
        "١٢",
    ];
    for s in cases.iter() {
        assert_eq!(parse_i64(s), s.parse::<i64>().ok());
    }
}

#[test]
fn parse_u64_reads_runs_of_digits_only() {
    assert_eq!(parse_u64("0"), Some(0));
    assert_eq!(parse_u64("0042"), Some(42));
    assert_eq!(parse_u64("18446744073709551615"), Some(u64::MAX));
    assert_eq!(parse_u64("18446744073709551616"), None);
    assert_eq!(parse_u64(""), None);
    assert_eq!(parse_u64("+1"), None);
    assert_eq!(parse_u64("-1"), None);
    assert_eq!(parse_u64("1x"), None);
}

#[test]
fn digits_have_values() {
    assert_eq!(digit_of('0'), Some(0));
    assert_eq!(digit_of('9'), Some(9));
    assert_eq!(digit_of('/'), None);
    assert_eq!(digit_of(':'), None);
    assert_eq!(digit_of('٣'), None);
}

#[test]
fn render_agrees_with_the_standard_library() {
    for n in [0u64, 1, 9, 10, 11, 99, 100, 12345, u64::MAX] {
        assert_eq!(render_u64(n), format!("{}", n));
        assert_eq!(render_padded(n, 8), format!("{:08}", n));
        assert_eq!(render_padded(n, 0), format!("{}", n));
    }
    for x in [0i64, 1, -1, 42, -42, i64::MAX, i64::MIN, i64::MIN + 1] {
        assert_eq!(render_i64(x), format!("{}", x));
    }
    assert_eq!(render_padded(7, 8), "00000007");
    assert_eq!(render_padded(123456789, 8), "123456789");
}

#[test]
fn join_and_complaint() {
    assert_eq!(join("ab", "cd"), "abcd");
    assert_eq!(join("", ""), "");
    assert_eq!(complaint("E: ", "x"), "E: \"x\"");
    assert_eq!(complaint("E: ", "a\nb\\"), "E: \"a\\nb\\\\\"");
}

#[test]
fn timeouts() {
    assert_eq!(parse_timeout("0"), Some(0));
    assert_eq!(parse_timeout("10"), Some(10));
    assert_eq!(parse_timeout("10s"), Some(10));
    assert_eq!(parse_timeout("30m"), Some(1800));
    assert_eq!(parse_timeout("1h"), Some(3600));
    assert_eq!(parse_timeout("2d"), Some(172800));
    assert_eq!(parse_timeout("007m"), Some(420));
    assert_eq!(parse_timeout(""), None);
    assert_eq!(parse_timeout("s"), None);
    assert_eq!(parse_timeout("10x"), None);
    assert_eq!(parse_timeout("10ss"), None);
    assert_eq!(parse_timeout("10 s"), None);
    assert_eq!(parse_timeout("-1"), None);
    assert_eq!(parse_timeout("1.5h"), None);
    assert_eq!(parse_timeout("18446744073709551615"), Some(u64::MAX));
    assert_eq!(parse_timeout("18446744073709551616"), None);
    assert_eq!(parse_timeout("18446744073709551615s"), Some(u64::MAX));
    assert_eq!(parse_timeout("18446744073709551615m"), None);
    assert_eq!(parse_timeout("213503982334601d"), Some(213503982334601 * 86400));
    assert_eq!(parse_timeout("213503982334602d"), None);
}

#[test]
fn float_order_agrees_with_the_numbers() {
    let values = [
        0.0,
        -0.0,
        1.0,
        -1.0,
        0.5,
        -0.5,
        1.0e-320,
        -1.0e-320,
        f64::MIN_POSITIVE,
        f64::MAX,
        f64::MIN,
        f64::INFINITY,
        f64::NEG_INFINITY,
        f64::NAN,
        -f64::NAN,
        f64::EPSILON,
        3.0,
        1.0e300,
    ];
    for a in values.iter() {
        assert_eq!(f(*a).is_nan(), a.is_nan());
        assert_eq!(f(*a).to_bits(), a.to_bits());
        for b in values.iter() {
            assert_eq!(f(*a).lt(&f(*b)), a < b);
            assert_eq!(f(*a).le(&f(*b)), a <= b);
            assert_eq!(f(*a).gt(&f(*b)), a > b);
            for c in values.iter() {
                let raised = if a < b { *b } else { *a };
                let want = if raised > *c { *c } else { raised };
                assert_eq!(f(*a).clip(f(*b), f(*c)).to_bits(), want.to_bits());
            }
        }
    }
}
