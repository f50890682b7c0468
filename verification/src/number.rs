//! Reading and writing whole numbers in decimal.

use crate::text::chars;
use vstd::prelude::*;
use vstd::string::*;

verus! {

/// Whether `c` is one of `0` to `9`.
pub open spec fn is_digit(c: char) -> bool {
    48 <= c as int <= 57
}

/// The value of a decimal digit.
pub open spec fn digit(c: char) -> int {
    c as int - 48
}

/// The character of a decimal digit.
pub open spec fn digit_char(d: int) -> char {
    (48 + d) as char
}

/// Whether every character of `s` is a decimal digit.
pub open spec fn all_digits(s: Seq<char>) -> bool {
    forall|i: int| 0 <= i < s.len() ==> is_digit(#[trigger] s[i])
}

/// The number that a run of decimal digits writes.
pub open spec fn decimal(s: Seq<char>) -> int
    decreases s.len(),
{
    if s.len() == 0 {
        0
    } else {
        decimal(s.drop_last()) * 10 + digit(s.last())
    }
}

/// The whole number that `s` writes: a run of at least one decimal digit,
/// with at most one sign before it.
pub open spec fn integer(s: Seq<char>) -> Option<int> {
    if s.len() == 0 {
        None
    } else if s[0] == '-' || s[0] == '+' {
        let run = s.subrange(1, s.len() as int);
        if run.len() > 0 && all_digits(run) {
            Some(
                if s[0] == '-' {
                    -decimal(run)
                } else {
                    decimal(run)
                },
            )
        } else {
            None
        }
    } else if all_digits(s) {
        Some(decimal(s))
    } else {
        None
    }
}

/// The number that `s` writes, where it fits in 64 bits with a sign.
pub open spec fn signed64(s: Seq<char>) -> Option<i64> {
    match integer(s) {
        Some(v) if i64::MIN <= v <= i64::MAX => Some(v as i64),
        _ => None,
    }
}

/// The decimal digits of `n`, without leading zeros.
pub open spec fn digits(n: nat) -> Seq<char>
    decreases n,
{
    if n < 10 {
        seq![digit_char(n as int)]
    } else {
        digits(n / 10) + seq![digit_char((n % 10) as int)]
    }
}

/// A whole number in decimal, with `-` before a negative one.
pub open spec fn rendered(x: int) -> Seq<char> {
    if x < 0 {
        seq!['-'] + digits((-x) as nat)
    } else {
        digits(x as nat)
    }
}

/// `s` with zeros put before it until it is `width` characters long.
pub open spec fn padded(s: Seq<char>, width: nat) -> Seq<char> {
    if s.len() >= width {
        s
    } else {
        Seq::new((width - s.len()) as nat, |i: int| '0') + s
    }
}

/// A run of digits writes a number that is not negative.
pub proof fn lemma_decimal_nonnegative(s: Seq<char>)
    requires
        all_digits(s),
    ensures
        decimal(s) >= 0,
    decreases s.len(),
{
    if s.len() > 0 {
        lemma_decimal_nonnegative(s.drop_last());
    }
}

/// A run of digits writes at least what any of its beginnings writes.
pub proof fn lemma_decimal_grows(s: Seq<char>, k: int)
    requires
        all_digits(s),
        0 <= k <= s.len(),
    ensures
        decimal(s.subrange(0, k)) <= decimal(s),
    decreases s.len(),
{
    if k == s.len() {
        assert(s.subrange(0, k) =~= s);
    } else {
        lemma_decimal_grows(s.drop_last(), k);
        assert(s.drop_last().subrange(0, k) =~= s.subrange(0, k));
        lemma_decimal_nonnegative(s.drop_last());
    }
}

/// The value of `c` where it is a decimal digit.
pub fn digit_of(c: char) -> (r: Option<u8>)
    ensures
        r is Some == is_digit(c),
        r is Some ==> r->0 == digit(c),
{
    let code: u32 = c as u32;
    if code < 48 || code > 57 {
        None
    } else {
        Some((code - 48) as u8)
    }
}

/// Reads a whole number that fits in 64 bits with a sign.
pub fn parse_i64(s: &str) -> (r: Option<i64>)
    ensures
        r == signed64(s@),
{
    let v = chars(s);
    let n: usize = v.len();
    if n == 0 {
        return None;
    }
    let negative: bool = v[0] == '-';
    let start: usize = if negative || v[0] == '+' {
        1
    } else {
        0
    };
    if start == n {
        return None;
    }
    let ghost run = v@.subrange(start as int, n as int);
    assert(start == 0 ==> run =~= v@);
    let mut acc: i64 = 0;
    let mut i: usize = start;
    while i < n
        invariant
            start <= i <= n,
            0 < n == v.len(),
            v@ == s@,
            negative == (v@[0] == '-'),
            start == if v@[0] == '-' || v@[0] == '+' {
                1int
            } else {
                0int
            },
            run == v@.subrange(start as int, n as int),
            all_digits(run.subrange(0, i - start)),
            acc == if negative {
                -decimal(run.subrange(0, i - start))
            } else {
                decimal(run.subrange(0, i - start))
            },
        decreases n - i,
    {
        let c: char = v[i];
        let d: i128 = match digit_of(c) {
            Some(d) => d as i128,
            None => {
                assert(!is_digit(run[i - start]));
                return None;
            },
        };
        let ghost before = run.subrange(0, i - start);
        let ghost now = run.subrange(0, i + 1 - start);
        assert(now.drop_last() =~= before);
        assert(now.last() == c);
        assert(all_digits(now)) by {
            assert forall|j: int| 0 <= j < now.len() implies is_digit(#[trigger] now[j]) by {
                if j < before.len() {
                    assert(now[j] == before[j]);
                }
            }
        }
        assert(decimal(now) == decimal(before) * 10 + digit(c));
        proof {
            lemma_decimal_nonnegative(now);
        }
        let next: i128 = if negative {
            acc as i128 * 10 - d
        } else {
            acc as i128 * 10 + d
        };
        if next < i64::MIN as i128 || next > i64::MAX as i128 {
            proof {
                assert(start == 0 ==> run =~= s@);
                if all_digits(run) {
                    lemma_decimal_grows(run, i + 1 - start);
                }
            }
            return None;
        }
        acc = next as i64;
        i += 1;
    }
    assert(run.subrange(0, n - start) =~= run);
    Some(acc)
}

/// The number that a run of at least one digit writes, where it fits in 64
/// bits without a sign.
pub open spec fn unsigned64(s: Seq<char>) -> Option<u64> {
    if s.len() > 0 && all_digits(s) && decimal(s) <= u64::MAX {
        Some(decimal(s) as u64)
    } else {
        None
    }
}

/// Reads a run of digits as a number that fits in 64 bits without a sign.
pub fn parse_u64(s: &str) -> (r: Option<u64>)
    ensures
        r == unsigned64(s@),
{
    let v = chars(s);
    let n: usize = v.len();
    if n == 0 {
        return None;
    }
    let mut acc: u64 = 0;
    let mut i: usize = 0;
    while i < n
        invariant
            i <= n == v.len(),
            v@ == s@,
            all_digits(v@.subrange(0, i as int)),
            acc == decimal(v@.subrange(0, i as int)),
        decreases n - i,
    {
        let c: char = v[i];
        let d: u128 = match digit_of(c) {
            Some(d) => d as u128,
            None => {
                assert(!is_digit(v@[i as int]));
                return None;
            },
        };
        let ghost before = v@.subrange(0, i as int);
        let ghost now = v@.subrange(0, i + 1);
        assert(now.drop_last() =~= before);
        assert(now.last() == c);
        assert(all_digits(now)) by {
            assert forall|j: int| 0 <= j < now.len() implies is_digit(#[trigger] now[j]) by {
                if j < before.len() {
                    assert(now[j] == before[j]);
                }
            }
        }
        assert(decimal(now) == decimal(before) * 10 + digit(c));
        let next: u128 = acc as u128 * 10 + d;
        if next > u64::MAX as u128 {
            proof {
                if all_digits(v@) {
                    lemma_decimal_grows(v@, i + 1);
                }
            }
            return None;
        }
        acc = next as u64;
        i += 1;
    }
    assert(v@.subrange(0, n as int) =~= v@);
    Some(acc)
}

/// The string of one decimal digit.
fn digit_str(d: u64) -> (r: &'static str)
    requires
        d < 10,
    ensures
        r@ == seq![digit_char(d as int)],
{
    proof {
        reveal_strlit("0123456789");
    }
    let all: &'static str = "0123456789";
    let r = all.substring_char(d as usize, d as usize + 1);
    assert(r@ =~= seq![digit_char(d as int)]);
    r
}

/// Writes `n` in decimal.
pub fn render_u64(n: u64) -> (r: String)
    ensures
        r@ == digits(n as nat),
    decreases n,
{
    if n < 10 {
        digit_str(n).to_owned()
    } else {
        let mut r = render_u64(n / 10);
        r.append(digit_str(n % 10));
        r
    }
}

/// Writes `x` in decimal.
pub fn render_i64(x: i64) -> (r: String)
    ensures
        r@ == rendered(x as int),
{
    if x < 0 {
        let m: u64 = if x == i64::MIN {
            0x8000_0000_0000_0000
        } else {
            (-x) as u64
        };
        proof {
            reveal_strlit("-");
        }
        let mut r = "-".to_owned();
        let tail = render_u64(m);
        r.append(tail.as_str());
        assert(r@ =~= seq!['-'] + digits((-x) as nat));
        r
    } else {
        render_u64(x as u64)
    }
}

/// Writes `n` in decimal, with zeros before it up to `width` characters.
pub fn render_padded(n: u64, width: usize) -> (r: String)
    ensures
        r@ == padded(digits(n as nat), width as nat),
{
    let body = render_u64(n);
    let len: usize = body.as_str().unicode_len();
    if len >= width {
        return body;
    }
    let mut r = String::new();
    let mut k: usize = 0;
    while k < width - len
        invariant
            len < width,
            k <= width - len,
            r@ == Seq::new(k as nat, |i: int| '0'),
        decreases width - len - k,
    {
        r.append(digit_str(0));
        k += 1;
        assert(r@ =~= Seq::new(k as nat, |i: int| '0'));
    }
    r.append(body.as_str());
    r
}

/// The digits of a number are at least one, are digits, and write the
/// number.
pub proof fn lemma_digits(n: nat)
    ensures
        digits(n).len() >= 1,
        all_digits(digits(n)),
        decimal(digits(n)) == n,
    decreases n,
{
    let s = digits(n);
    if n < 10 {
        assert(s.len() == 1);
        assert(s[0] == digit_char(n as int));
        assert(s.drop_last() =~= Seq::<char>::empty());
        assert(decimal(s) == decimal(s.drop_last()) * 10 + digit(s.last()));
    } else {
        lemma_digits(n / 10);
        let head = digits(n / 10);
        assert(s =~= head + seq![digit_char((n % 10) as int)]);
        assert(s.drop_last() =~= head);
        assert(s.last() == digit_char((n % 10) as int));
        assert forall|i: int| 0 <= i < s.len() implies is_digit(#[trigger] s[i]) by {
            if i < head.len() {
                assert(s[i] == head[i]);
            }
        }
        assert(decimal(s) == decimal(head) * 10 + digit(s.last()));
    }
}

/// A whole number that was written reads back as itself, and its text holds
/// no dot.
pub proof fn lemma_rendered(x: int)
    ensures
        rendered(x).len() >= 1,
        integer(rendered(x)) == Some(x),
        forall|i: int| 0 <= i < rendered(x).len() ==> #[trigger] rendered(x)[i] != '.',
{
    let s = rendered(x);
    if x < 0 {
        let run = digits((-x) as nat);
        lemma_digits((-x) as nat);
        assert(s =~= seq!['-'] + run);
        assert(s[0] == '-');
        assert(s.subrange(1, s.len() as int) =~= run);
        assert forall|i: int| 0 <= i < s.len() implies #[trigger] s[i] != '.' by {
            if i > 0 {
                assert(s[i] == run[i - 1]);
                assert(is_digit(run[i - 1]));
            }
        }
    } else {
        lemma_digits(x as nat);
        assert(is_digit(s[0]));
        assert forall|i: int| 0 <= i < s.len() implies #[trigger] s[i] != '.' by {
            assert(is_digit(s[i]));
        }
    }
}

} // verus!
