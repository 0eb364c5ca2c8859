//! Parsing of paired command-line values.
//!
//! The command line hands the renderer its surface dimensions as
//! `WIDTHxHEIGHT` and each viewport corner as `RE,IM`. `parse_pair`
//! splits such a string at the first occurrence of a separator character
//! and parses the two halves. The split itself is exact; which halves
//! parse, and to what, is the parsed type's own affair.

use core::str::FromStr;
use vstd::prelude::*;
use vstd::string::StrSliceExecFns;

verus! {

/// Relies on `<T as FromStr>::from_str`, keeping only whether a value
/// parsed: which strings parse, and to what value, is the implementing
/// type's own affair, so nothing is assumed of the result.
#[verifier::external_body]
fn parse_value<T: FromStr>(s: &str) -> (parsed: Option<T>) {
    T::from_str(s).ok()
}

/// Character index of the first occurrence of `separator` in `s`, if
/// there is one.
pub fn find_separator(s: &str, separator: char) -> (found: Option<usize>)
    ensures
        match found {
            Some(idx) => idx < s@.len() && s@[idx as int] == separator && (forall|j: int|
                0 <= j < idx ==> s@[j] != separator),
            None => forall|j: int| 0 <= j < s@.len() ==> s@[j] != separator,
        },
{
    let length = s.unicode_len();
    for idx in 0..length
        invariant
            length == s@.len(),
            forall|j: int| 0 <= j < idx ==> s@[j] != separator,
    {
        if s.get_char(idx) == separator {
            return Some(idx);
        }
    }
    None
}

/// Pairs two parse results: a pair exactly when both halves parsed, in
/// order.
pub fn pair_of_parses<T>(left: Option<T>, right: Option<T>) -> (paired: Option<(T, T)>)
    ensures
        paired is Some <==> (left is Some && right is Some),
        left matches Some(l) ==> (right matches Some(r) ==> paired == Some((l, r))),
{
    match (left, right) {
        (Some(l), Some(r)) => Some((l, r)),
        _ => None,
    }
}

/// Splits `s` at the first occurrence of `separator` and parses the two
/// halves; the separator itself belongs to neither half. Without the
/// separator there is nothing to split, so no pair; with it, a pair
/// comes back exactly when both halves parse.
pub fn parse_pair<T: FromStr>(s: &str, separator: char) -> (parsed: Option<(T, T)>)
    ensures
        (forall|j: int| 0 <= j < s@.len() ==> s@[j] != separator) ==> parsed is None,
{
    match find_separator(s, separator) {
        None => None,
        Some(idx) => {
            let length = s.unicode_len();
            let left = s.substring_char(0, idx);
            let right = s.substring_char(idx + 1, length);
            pair_of_parses(parse_value::<T>(left), parse_value::<T>(right))
        },
    }
}

} // verus!
