//! Building the messages of errors.

use vstd::prelude::*;
use vstd::string::*;

verus! {

/// The text that the standard library's `Debug` writes for a string: the
/// string between double quotes, with its quotes, backslashes and control
/// characters escaped.
pub uninterp spec fn quoted(s: Seq<char>) -> Seq<char>;

/// Writes `s` as `{:?}` does.
///
/// Trusted: the body is one call of `format!` with `{:?}` on a string slice.
/// The contract only names the result; it says nothing of what the escapes
/// look like.
#[verifier::external_body]
pub(crate) fn quote(s: &str) -> (r: String)
    ensures
        r@ == quoted(s@),
{
    format!("{:?}", s)
}

/// `a` followed by `b`.
pub fn join(a: &str, b: &str) -> (r: String)
    ensures
        r@ == a@ + b@,
{
    let mut r = a.to_owned();
    r.append(b);
    r
}

/// `prefix` followed by `s` as `{:?}` writes it.
pub fn complaint(prefix: &str, s: &str) -> (r: String)
    ensures
        r@ == prefix@ + quoted(s@),
{
    let q = quote(s);
    join(prefix, q.as_str())
}

} // verus!
