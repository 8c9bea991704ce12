//! The units of numbers with units: how units combine when the numbers are
//! multiplied or divided.
use vstd::prelude::*;
use vstd::string::StringExecFns;

verus! {

/// The unit of a product: the right unit alone when the left one is empty,
/// else `left * right`.
pub open spec fn product_unit(left: Seq<char>, right: Seq<char>) -> Seq<char> {
    if left.len() == 0 {
        right
    } else {
        left + " * "@ + right
    }
}

/// The unit of a quotient: `left / right`.
pub open spec fn quotient_unit(left: Seq<char>, right: Seq<char>) -> Seq<char> {
    left + " / "@ + right
}

/// The unit of the product of numbers in the units `left` and `right`.
pub fn mul_unit(left: &str, right: &str) -> (u: String)
    ensures
        u@ == product_unit(left@, right@),
{
    if left.unicode_len() == 0 {
        return String::from_str(right);
    }
    let mut u = String::from_str(left);
    u.append(" * ");
    u.append(right);
    u
}

/// The unit of the quotient of numbers in the units `left` and `right`.
pub fn div_unit(left: &str, right: &str) -> (u: String)
    ensures
        u@ == quotient_unit(left@, right@),
{
    let mut u = String::from_str(left);
    u.append(" / ");
    u.append(right);
    u
}

/// The unit of the product of numbers in the given units, in order, from
/// a unitless one.
pub open spec fn units_product(units: Seq<Seq<char>>) -> Seq<char>
    decreases units.len(),
{
    if units.len() == 0 {
        seq![]
    } else {
        product_unit(units_product(units.drop_last()), units.last())
    }
}

/// The unit of the product of numbers in the units `units`, multiplied in
/// order onto a unitless one.
pub fn mul_units(units: &[String]) -> (u: String)
    ensures
        u@ == units_product(units@.map_values(|s: String| s@)),
{
    let ghost view = units@.map_values(|s: String| s@);
    let mut u = String::new();
    let mut i: usize = 0;
    while i < units.len()
        invariant
            i <= units.len(),
            view == units@.map_values(|s: String| s@),
            u@ == units_product(view.take(i as int)),
        decreases units.len() - i,
    {
        assert(view.take(i + 1).drop_last() =~= view.take(i as int));
        u = mul_unit(u.as_str(), units[i].as_str());
        i += 1;
    }
    assert(view.take(units.len() as int) =~= view);
    u
}

} // verus!
