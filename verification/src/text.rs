//! Searching and splitting text.
//!
//! A text is the sequence of the characters of a string. A pattern occurs in
//! it at the places where the characters match one for one; splitting cuts at
//! the occurrences that do not overlap, taken from the left.

use vstd::prelude::*;
use vstd::string::*;

verus! {

/// The texts of a list of strings.
pub open spec fn texts(v: Seq<String>) -> Seq<Seq<char>> {
    Seq::new(v.len(), |i: int| v[i]@)
}

/// Whether `pat` stands in `s` at place `i`.
pub open spec fn occurs_at(s: Seq<char>, pat: Seq<char>, i: int) -> bool {
    0 <= i && i + pat.len() <= s.len() && s.subrange(i, i + pat.len()) == pat
}

/// The first place at or after `from` where `pat` stands in `s`.
pub open spec fn find(s: Seq<char>, pat: Seq<char>, from: int) -> Option<int>
    decreases s.len() + 1 - from,
{
    if from < 0 || from + pat.len() > s.len() {
        None
    } else if occurs_at(s, pat, from) {
        Some(from)
    } else {
        find(s, pat, from + 1)
    }
}

/// Whether `pat` stands anywhere in `s`.
pub open spec fn includes(s: Seq<char>, pat: Seq<char>) -> bool {
    find(s, pat, 0) is Some
}

/// The fields of `s` from place `from` on, cut at the occurrences of `pat`.
pub open spec fn split_from(s: Seq<char>, pat: Seq<char>, from: int) -> Seq<Seq<char>>
    decreases s.len() - from,
{
    match find(s, pat, from) {
        Some(i) if pat.len() > 0 && from <= i && i + pat.len() <= s.len() => seq![
            s.subrange(from, i),
        ] + split_from(s, pat, i + pat.len()),
        _ => seq![s.subrange(from, s.len() as int)],
    }
}

/// The fields of `s`, cut at the occurrences of `pat`.
pub open spec fn fields(s: Seq<char>, pat: Seq<char>) -> Seq<Seq<char>> {
    split_from(s, pat, 0)
}

/// What `find` returns is the least place of an occurrence from `from` on.
pub proof fn lemma_find(s: Seq<char>, pat: Seq<char>, from: int)
    requires
        0 <= from,
    ensures
        match find(s, pat, from) {
            Some(i) => from <= i && occurs_at(s, pat, i) && forall|j: int|
                from <= j < i ==> !occurs_at(s, pat, j),
            None => forall|j: int| from <= j ==> !occurs_at(s, pat, j),
        },
    decreases s.len() + 1 - from,
{
    if from + pat.len() > s.len() {
    } else if occurs_at(s, pat, from) {
    } else {
        lemma_find(s, pat, from + 1);
    }
}

/// Splitting always yields a field.
pub proof fn lemma_split_nonempty(s: Seq<char>, pat: Seq<char>, from: int)
    ensures
        split_from(s, pat, from).len() >= 1,
    decreases s.len() - from,
{
    match find(s, pat, from) {
        Some(i) if pat.len() > 0 && from <= i && i + pat.len() <= s.len() => {
            lemma_split_nonempty(s, pat, i + pat.len());
        },
        _ => {},
    }
}

/// A text without the pattern is its own single field.
pub proof fn lemma_fields_without(s: Seq<char>, pat: Seq<char>)
    requires
        !includes(s, pat),
    ensures
        fields(s, pat) == seq![s],
{
    assert(s.subrange(0, s.len() as int) =~= s);
}

/// The characters of a string.
pub fn chars(s: &str) -> (v: Vec<char>)
    ensures
        v@ == s@,
{
    let n: usize = s.unicode_len();
    let mut v: Vec<char> = Vec::new();
    let mut i: usize = 0;
    while i < n
        invariant
            n == s@.len(),
            i <= n,
            v@ == s@.subrange(0, i as int),
        decreases n - i,
    {
        v.push(s.get_char(i));
        i += 1;
        assert(v@ =~= s@.subrange(0, i as int));
    }
    assert(s@.subrange(0, n as int) =~= s@);
    v
}

/// Whether `pat` stands in `s` at place `i`.
pub fn matches_at(s: &Vec<char>, pat: &Vec<char>, i: usize) -> (r: bool)
    ensures
        r == occurs_at(s@, pat@, i as int),
{
    if pat.len() > s.len() || i > s.len() - pat.len() {
        return false;
    }
    let mut k: usize = 0;
    while k < pat.len()
        invariant
            k <= pat.len(),
            i + pat.len() <= s.len(),
            forall|j: int| 0 <= j < k ==> s@[i + j] == pat@[j],
        decreases pat.len() - k,
    {
        if s[i + k] != pat[k] {
            assert(s@.subrange(i as int, i + pat.len())[k as int] == s@[i + k]);
            return false;
        }
        k += 1;
    }
    assert(s@.subrange(i as int, i + pat.len()) =~= pat@);
    true
}

/// The first place at or after `from` where `pat` stands in `s`.
pub fn find_in(s: &Vec<char>, pat: &Vec<char>, from: usize) -> (r: Option<usize>)
    ensures
        match r {
            Some(i) => find(s@, pat@, from as int) == Some(i as int),
            None => find(s@, pat@, from as int) is None,
        },
{
    if pat.len() > s.len() {
        return None;
    }
    let last: usize = s.len() - pat.len();
    let mut i: usize = from;
    while i <= last
        invariant
            last == s.len() - pat.len(),
            from <= i,
            find(s@, pat@, from as int) == find(s@, pat@, i as int),
        decreases last + 1 - i,
    {
        if matches_at(s, pat, i) {
            return Some(i);
        }
        if i == last {
            assert(find(s@, pat@, i + 1) is None);
            return None;
        }
        i += 1;
    }
    None
}

/// Whether `pat` stands anywhere in `s`.
pub fn contains(s: &str, pat: &str) -> (r: bool)
    ensures
        r == includes(s@, pat@),
{
    let sv = chars(s);
    let pv = chars(pat);
    find_in(&sv, &pv, 0).is_some()
}

/// The fields of `s`, cut at the occurrences of `pat`, as strings of their own.
pub fn split(s: &str, pat: &str) -> (r: Vec<String>)
    requires
        pat@.len() > 0,
    ensures
        texts(r@) == fields(s@, pat@),
{
    let sv = chars(s);
    let pv = chars(pat);
    let mut r: Vec<String> = Vec::new();
    let mut from: usize = 0;
    loop
        invariant_except_break
            fields(s@, pat@) == texts(r@) + split_from(s@, pat@, from as int),
        invariant
            sv@ == s@,
            pv@ == pat@,
            pv@.len() > 0,
            from <= sv.len(),
        ensures
            texts(r@) == fields(s@, pat@),
        decreases sv.len() - from,
    {
        let ghost before = texts(r@);
        match find_in(&sv, &pv, from) {
            Some(i) => {
                proof {
                    lemma_find(s@, pat@, from as int);
                }
                r.push(s.substring_char(from, i).to_owned());
                assert(texts(r@) =~= before + seq![s@.subrange(from as int, i as int)]);
                from = i + pv.len();
            },
            None => {
                r.push(s.substring_char(from, sv.len()).to_owned());
                assert(texts(r@) =~= before + seq![s@.subrange(from as int, s@.len() as int)]);
                break ;
            },
        }
    }
    r
}

/// The texts before and behind the first occurrence of `pat` in `s`.
pub open spec fn halves(s: Seq<char>, pat: Seq<char>) -> Option<(Seq<char>, Seq<char>)> {
    match find(s, pat, 0) {
        Some(i) => Some((s.subrange(0, i), s.subrange(i + pat.len(), s.len() as int))),
        None => None,
    }
}

/// The model of an optional pair of strings.
pub open spec fn both(r: Option<(String, String)>) -> Option<(Seq<char>, Seq<char>)> {
    match r {
        Some((a, b)) => Some((a@, b@)),
        None => None,
    }
}

/// Cuts `s` at the first occurrence of `pat`: the text before it and the
/// text behind it, or nothing where `pat` does not occur.
pub fn cut(s: &str, pat: &str) -> (r: Option<(String, String)>)
    ensures
        both(r) == halves(s@, pat@),
{
    let sv = chars(s);
    let pv = chars(pat);
    match find_in(&sv, &pv, 0) {
        Some(i) => {
            proof {
                lemma_find(s@, pat@, 0);
            }
            assert(occurs_at(s@, pat@, i as int));
            assert(pv@.len() == pat@.len() && sv@.len() == s@.len());
            assert(i + pv.len() <= sv.len());
            let head = s.substring_char(0, i).to_owned();
            let tail = s.substring_char(i + pv.len(), sv.len()).to_owned();
            Some((head, tail))
        },
        None => None,
    }
}

/// The first occurrence from `from` on stands at `to` where it stands there
/// and no place before it holds the first character of the pattern.
pub proof fn lemma_find_at(s: Seq<char>, pat: Seq<char>, from: int, to: int)
    requires
        0 <= from <= to,
        pat.len() > 0,
        occurs_at(s, pat, to),
        forall|j: int| from <= j < to ==> #[trigger] s[j] != pat[0],
    ensures
        find(s, pat, from) == Some(to),
{
    lemma_find(s, pat, from);
    let i = find(s, pat, from)->0;
    if i < to {
        assert(s.subrange(i, i + pat.len())[0] == s[i]);
    }
}

/// Nothing is found from `from` on where no place from there on holds the
/// first character of the pattern.
pub proof fn lemma_find_none(s: Seq<char>, pat: Seq<char>, from: int)
    requires
        0 <= from,
        pat.len() > 0,
        forall|j: int| from <= j < s.len() ==> #[trigger] s[j] != pat[0],
    ensures
        find(s, pat, from) is None,
{
    lemma_find(s, pat, from);
    if find(s, pat, from) is Some {
        let i = find(s, pat, from)->0;
        assert(s.subrange(i, i + pat.len())[0] == s[i]);
    }
}

} // verus!
