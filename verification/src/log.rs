//! Reading a line of a log back.
//!
//! A line is a time stamp in square brackets, white space, and a message.
//! The stamp ends at the first `]`; all white space behind it is skipped, and
//! the message may not hold a line feed.

use crate::text::{chars, find, find_in, lemma_find, occurs_at};
use vstd::prelude::*;
use vstd::string::*;

verus! {

/// Whether `c` is white space, as Unicode's `White_Space` has it.
pub open spec fn is_space(c: char) -> bool {
    let n = c as int;
    (9 <= n <= 13) || n == 0x20 || n == 0x85 || n == 0xa0 || n == 0x1680 || (0x2000 <= n
        <= 0x200a) || n == 0x2028 || n == 0x2029 || n == 0x202f || n == 0x205f || n == 0x3000
}

/// How many characters of white space stand in a row from place `from` on.
pub open spec fn spaces(s: Seq<char>, from: int) -> int
    decreases s.len() - from,
{
    if 0 <= from < s.len() && is_space(s[from]) {
        1 + spaces(s, from + 1)
    } else {
        0
    }
}

/// The stamp and the message of a line of a log.
pub open spec fn unstamped(line: Seq<char>) -> Option<(Seq<char>, Seq<char>)> {
    if line.len() == 0 || line[0] != '[' {
        None
    } else {
        match find(line, "]"@, 1) {
            None => None,
            Some(close) => {
                let n = spaces(line, close + 1);
                let rest = line.subrange(close + 1 + n, line.len() as int);
                if n >= 1 && !rest.contains('\n') {
                    Some((line.subrange(1, close), rest))
                } else {
                    None
                }
            },
        }
    }
}

/// Whether `c` is white space.
pub fn space(c: char) -> (r: bool)
    ensures
        r == is_space(c),
{
    let n: u32 = c as u32;
    (9 <= n && n <= 13) || n == 0x20 || n == 0x85 || n == 0xa0 || n == 0x1680 || (0x2000 <= n
        && n <= 0x200a) || n == 0x2028 || n == 0x2029 || n == 0x202f || n == 0x205f || n
        == 0x3000
}

/// The stamp and the message of a line of a log, where the line is one.
pub fn parse_log_line(line: &str) -> (r: Option<(String, String)>)
    ensures
        match r {
            Some(parts) => unstamped(line@) == Some((parts.0@, parts.1@)),
            None => unstamped(line@) is None,
        },
{
    proof {
        reveal_strlit("]");
    }
    let v = chars(line);
    let len: usize = v.len();
    if len == 0 || v[0] != '[' {
        return None;
    }
    let bracket = chars("]");
    let close: usize = match find_in(&v, &bracket, 1) {
        Some(i) => i,
        None => {
            return None;
        },
    };
    proof {
        lemma_find(line@, "]"@, 1);
    }
    assert(close < len);
    let mut at: usize = close + 1;
    while at < len && space(v[at])
        invariant
            close < at <= len == v.len(),
            v@ == line@,
            spaces(line@, close + 1) == (at - close - 1) + spaces(line@, at as int),
        decreases len - at,
    {
        at += 1;
    }
    assert(spaces(line@, at as int) == 0);
    if at == close + 1 {
        return None;
    }
    let ghost rest = line@.subrange(at as int, len as int);
    let mut k: usize = at;
    while k < len
        invariant
            at <= k <= len == v.len(),
            v@ == line@,
            line@[0] == '[',
            find(line@, "]"@, 1) == Some(close as int),
            spaces(line@, close + 1) == at - close - 1 >= 1,
            rest == line@.subrange(at as int, len as int),
            forall|j: int| 0 <= j < k - at ==> rest[j] != '\n',
        decreases len - k,
    {
        if v[k] == '\n' {
            assert(rest[k - at] == '\n');
            assert(rest.contains('\n'));
            return None;
        }
        k += 1;
    }
    Some((line.substring_char(1, close).to_owned(), line.substring_char(at, len).to_owned()))
}

/// The white space in a row before a character that is none has an end.
pub proof fn lemma_spaces(s: Seq<char>, from: int, n: int)
    requires
        0 <= from,
        0 <= n,
        from + n <= s.len(),
        forall|i: int| from <= i < from + n ==> is_space(#[trigger] s[i]),
        from + n == s.len() || !is_space(s[from + n]),
    ensures
        spaces(s, from) == n,
    decreases n,
{
    if n > 0 {
        lemma_spaces(s, from + 1, n - 1);
    }
}

/// A line that was written as a stamp in brackets, one blank and a message
/// reads back as that stamp and that message, as long as the stamp holds no
/// `]` and the message neither begins with white space nor holds a line feed.
pub proof fn lemma_line_reads_back(stamp: Seq<char>, msg: Seq<char>)
    requires
        !stamp.contains(']'),
        msg.len() == 0 || !is_space(msg[0]),
        !msg.contains('\n'),
    ensures
        unstamped("["@ + stamp + "] "@ + msg) == Some((stamp, msg)),
{
    reveal_strlit("[");
    reveal_strlit("] ");
    reveal_strlit("]");
    let line = "["@ + stamp + "] "@ + msg;
    let close = 1 + stamp.len() as int;
    assert(line[0] == '[');
    assert(line[close] == ']');
    assert(line[close + 1] == ' ');
    assert(line.subrange(close, close + 1) =~= "]"@);
    assert(occurs_at(line, "]"@, close));
    lemma_find(line, "]"@, 1);
    let found = find(line, "]"@, 1);
    assert(found is Some);
    let i = found->0;
    if i < close {
        assert(line.subrange(i, i + 1)[0] == line[i]);
        assert(line[i] == stamp[i - 1]);
        assert(stamp.contains(stamp[i - 1]));
    }
    assert(i == close);
    if msg.len() > 0 {
        assert(line[close + 2] == msg[0]);
    }
    lemma_spaces(line, close + 1, 1);
    assert(line.subrange(close + 2, line.len() as int) =~= msg);
    assert(line.subrange(1, close) =~= stamp);
}

} // verus!
