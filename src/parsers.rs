use vstd::prelude::*;
use std::str::FromStr;

verus! {

/// `left` and `right` are the text before and after the first `separator` in
/// `s`.
pub open spec fn splits_at_first(s: Seq<char>, separator: char, left: Seq<char>, right: Seq<char>) -> bool {
    &&& s == left + seq![separator] + right
    &&& !left.contains(separator)
}

/// Relies on `str::split_once` with a `char` pattern: it splits the text at
/// the first occurrence of the separator, and finds none in a text that does
/// not hold it.
#[verifier::external_body]
fn split_at_separator(s: &str, separator: char) -> (r: Option<(&str, &str)>)
    ensures
        (r is None) == !s@.contains(separator),
        (r is Some) ==> splits_at_first(s@, separator, r->Some_0.0@, r->Some_0.1@),
{
    s.split_once(separator)
}

/// Relies on `FromStr::from_str` of `T`; what it accepts is up to `T`.
#[verifier::external_body]
fn parse_value<T: FromStr>(s: &str) -> (r: Option<T>) {
    T::from_str(s).ok()
}

/// A pair of values when both halves were read, and nothing otherwise.
pub fn pair_of<T>(left: Option<T>, right: Option<T>) -> (r: Option<(T, T)>)
    ensures
        r == (match (left, right) {
            (Some(a), Some(b)) => Some((a, b)),
            _ => None,
        }),
{
    match (left, right) {
        (Some(a), Some(b)) => Some((a, b)),
        _ => None,
    }
}

/// Reads a pair of values written `<left><separator><right>`, splitting at the
/// first separator; `None` if there is no separator or a half does not parse
/// as a `T`.
pub fn parse_pair<T: FromStr>(s: &str, separator: char) -> (r: Option<(T, T)>)
    ensures
        !s@.contains(separator) ==> (r is None),
        (r is Some) ==> s@.contains(separator),
{
    match split_at_separator(s, separator) {
        None => None,
        Some((left, right)) => pair_of(parse_value(left), parse_value(right)),
    }
}

} // verus!
