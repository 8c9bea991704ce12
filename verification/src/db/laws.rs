//! What holds of the database across its operations.
use vstd::prelude::*;
use crate::db::commands::{CondOp, LiteralValue};
use crate::db::select::{holds_spec, order_spec, Order};
use crate::db::table::KeyView;

verus! {

/// Deleting the key that an insert has just added gives back the rows the
/// table had before the insert.
pub proof fn law_delete_undoes_insert(
    before: Map<KeyView, Seq<(Seq<char>, LiteralValue)>>,
    key: KeyView,
    row: Seq<(Seq<char>, LiteralValue)>,
)
    requires
        !before.contains_key(key),
    ensures
        before.insert(key, row).remove(key) == before,
{
    assert(before.insert(key, row).remove(key) =~= before);
}

/// After an insert, the table has a row under the key, and it is the row
/// that was inserted; the rows under other keys are as they were.
pub proof fn law_insert_then_read(
    before: Map<KeyView, Seq<(Seq<char>, LiteralValue)>>,
    key: KeyView,
    row: Seq<(Seq<char>, LiteralValue)>,
    other: KeyView,
)
    requires
        other != key,
    ensures
        before.insert(key, row).contains_key(key),
        before.insert(key, row)[key] == row,
        before.insert(key, row).contains_key(other) == before.contains_key(other),
        before.insert(key, row)[other] == before[other],
{
}

/// After a delete, no row has the key, and the rows under other keys are
/// as they were.
pub proof fn law_delete_then_read(
    before: Map<KeyView, Seq<(Seq<char>, LiteralValue)>>,
    key: KeyView,
    other: KeyView,
)
    requires
        other != key,
    ensures
        !before.remove(key).contains_key(key),
        before.remove(key).contains_key(other) == before.contains_key(other),
        before.remove(key)[other] == before[other],
{
}

/// A condition on two integers holds as the comparison it names does:
/// `=`, `!=`, `>`, `>=` and `<=` as in arithmetic, and `<` as `<=` (the
/// command language decides `<` that way).
pub proof fn law_integer_conditions(op: CondOp, a: int, b: int, float_order: Order)
    ensures
        order_spec(LiteralValue::Int(a), LiteralValue::Int(b), float_order) matches Ok(o) && holds_spec(op, o) == match op {
            CondOp::Equals => a == b,
            CondOp::NotEquals => a != b,
            CondOp::LessThan => a <= b,
            CondOp::LessEqual => a <= b,
            CondOp::Greater => a > b,
            CondOp::GreaterEqual => a >= b,
        },
{
}

/// A value that is not a float meets `=`, `>=` and `<=` against itself,
/// and fails `!=` and `>`.
pub proof fn law_value_against_itself(v: LiteralValue, float_order: Order)
    requires
        !(v is Float),
    ensures
        order_spec(v, v, float_order) matches Ok(o) && holds_spec(CondOp::Equals, o) && holds_spec(CondOp::GreaterEqual, o)
            && holds_spec(CondOp::LessEqual, o) && !holds_spec(CondOp::NotEquals, o) && !holds_spec(CondOp::Greater, o),
{
}

/// `>=` holds exactly where `>` or `=` does, `<=` exactly where `=` or
/// the reverse of `>` does, and `!=` exactly where `=` does not.
pub proof fn law_conditions_combine(o: Order)
    ensures
        holds_spec(CondOp::GreaterEqual, o) == (holds_spec(CondOp::Greater, o) || holds_spec(CondOp::Equals, o)),
        holds_spec(CondOp::NotEquals, o) == !holds_spec(CondOp::Equals, o),
        o != Order::Unordered ==> (holds_spec(CondOp::LessEqual, o) == !holds_spec(CondOp::Greater, o)),
        o != Order::Unordered ==> (holds_spec(CondOp::GreaterEqual, o) == (o != Order::Less)),
{
}

} // verus!
