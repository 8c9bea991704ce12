use vstd::prelude::*;

verus! {

/// The decimal digits of a natural number, most significant first.
pub open spec fn digits(n: nat) -> Seq<char>
    decreases n,
{
    if n < 10 {
        seq![((48 + n) as char)]
    } else {
        digits(n / 10).push(((48 + n % 10) as char))
    }
}

/// The decimal text of an integer: a minus sign for negatives, then the digits.
pub open spec fn decimal(x: int) -> Seq<char> {
    if x < 0 {
        seq!['-'] + digits((-x) as nat)
    } else {
        digits(x as nat)
    }
}

/// Formats a signed integer through `i64::to_string` (std's `Display` for
/// integers). The contract claims what std documents: the result is the
/// base-ten text of the value, with a leading `-` for negative numbers.
#[verifier::external_body]
pub(crate) fn i64_text(x: i64) -> (s: String)
    ensures
        s@ == decimal(x as int),
{
    x.to_string()
}

/// Formats an unsigned integer through `u64::to_string` (std's `Display`
/// for integers). The contract claims what std documents: the result is
/// the base-ten text of the value.
#[verifier::external_body]
pub(crate) fn u64_text(x: u64) -> (s: String)
    ensures
        s@ == decimal(x as int),
{
    x.to_string()
}

/// Compares two string slices with `<str as PartialEq>::eq`, which std
/// documents as equality of the contents.
#[verifier::external_body]
pub(crate) fn str_eq(a: &str, b: &str) -> (r: bool)
    ensures
        r == (a@ == b@),
{
    a == b
}

} // verus!
