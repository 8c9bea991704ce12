//! Listing rows: which rows meet the conditions of a `SELECT`, and which of
//! their values are listed. The order of two floating-point values is
//! given by the caller, who reads the numbers.
use vstd::prelude::*;
use crate::db::commands::{conds_view, literal_value, named_values, CondOp, Literal, LiteralValue};
use crate::db::schema::FieldType;
use crate::db::table::{field_value, text_lt, KeyView, Record, Table};
use crate::db::tokens::text_of;
use crate::text::str_eq;

verus! {

/// How one value stands to another. Floating-point values may be
/// unordered (when one is not a number).
#[derive(Clone, Copy, Debug, PartialEq, Eq, Structural)]
pub enum Order {
    Less,
    Equal,
    Greater,
    Unordered,
}

/// The type of a value.
pub open spec fn type_of(v: LiteralValue) -> FieldType {
    match v {
        LiteralValue::Bool(_) => FieldType::Bool,
        LiteralValue::Str(_) => FieldType::String,
        LiteralValue::Int(_) => FieldType::Int,
        LiteralValue::Float(_) => FieldType::Float,
    }
}

/// How `left` stands to `right`: booleans with `false` first, integers by
/// value, strings by `text_lt`, and two floats as `float_order` says;
/// values of two types are not compared, and the types are given back.
pub open spec fn order_spec(left: LiteralValue, right: LiteralValue, float_order: Order) -> Result<
    Order,
    (FieldType, FieldType),
> {
    match (left, right) {
        (LiteralValue::Bool(a), LiteralValue::Bool(b)) => Ok(
            if a == b {
                Order::Equal
            } else if !a {
                Order::Less
            } else {
                Order::Greater
            },
        ),
        (LiteralValue::Int(a), LiteralValue::Int(b)) => Ok(
            if a == b {
                Order::Equal
            } else if a < b {
                Order::Less
            } else {
                Order::Greater
            },
        ),
        (LiteralValue::Str(a), LiteralValue::Str(b)) => Ok(
            if a == b {
                Order::Equal
            } else if text_lt(a, b) {
                Order::Less
            } else {
                Order::Greater
            },
        ),
        (LiteralValue::Float(_), LiteralValue::Float(_)) => Ok(float_order),
        _ => Err((type_of(left), type_of(right))),
    }
}

/// Whether a comparison holds of values that stand in the order `o`. A
/// `<` condition is decided as `<=`.
pub open spec fn holds_spec(op: CondOp, o: Order) -> bool {
    match op {
        CondOp::Equals => o == Order::Equal,
        CondOp::NotEquals => o != Order::Equal,
        CondOp::LessThan => o == Order::Less || o == Order::Equal,
        CondOp::LessEqual => o == Order::Less || o == Order::Equal,
        CondOp::Greater => o == Order::Greater,
        CondOp::GreaterEqual => o == Order::Greater || o == Order::Equal,
    }
}

/// Why rows could not be listed.
#[derive(Debug)]
pub enum SelectError {
    /// A listed field that the table does not have.
    InvalidField { table: String, field: String },
    /// A field that a row does not have.
    RecordField(String),
    /// Values of two types compared.
    MismatchedOperandTypes { left: FieldType, right: FieldType },
}

/// Why rows could not be listed, with texts as character sequences.
pub enum SelectFail {
    InvalidField(Seq<char>, Seq<char>),
    RecordField(Seq<char>),
    Mismatch(FieldType, FieldType),
}

/// The error `e` says what `f` describes.
pub open spec fn select_fails_as(e: SelectError, f: SelectFail) -> bool {
    match f {
        SelectFail::InvalidField(t, x) => e matches SelectError::InvalidField { table, field } && table@ == t
            && field@ == x,
        SelectFail::RecordField(x) => e matches SelectError::RecordField(s) && s@ == x,
        SelectFail::Mismatch(a, b) => e matches SelectError::MismatchedOperandTypes { left, right } && left == a
            && right == b,
    }
}

/// Whether the row `row` meets the conditions `conds`, each decided in
/// turn; `float_orders` gives, condition by condition, the order of the
/// row's value and the condition's when both are floats. The first
/// failure is reported.
pub open spec fn passes_spec(
    row: Seq<(Seq<char>, LiteralValue)>,
    conds: Seq<(Seq<char>, CondOp, LiteralValue)>,
    float_orders: Seq<Order>,
) -> Result<bool, SelectFail>
    decreases conds.len(),
{
    if conds.len() == 0 {
        Ok(true)
    } else {
        let c = conds.last();
        match passes_spec(row, conds.drop_last(), float_orders) {
            Err(f) => Err(f),
            Ok(all) => match field_value(row, c.0) {
                None => Err(SelectFail::RecordField(c.0)),
                Some(v) => match order_spec(v, c.2, float_orders[conds.len() - 1]) {
                    Err((a, b)) => Err(SelectFail::Mismatch(a, b)),
                    Ok(o) => Ok(all && holds_spec(c.1, o)),
                },
            },
        }
    }
}

/// The type of a literal.
fn literal_type(l: &Literal) -> (t: FieldType)
    ensures
        t == type_of(literal_value(*l)),
{
    match l {
        Literal::Bool(_) => FieldType::Bool,
        Literal::Str(_) => FieldType::String,
        Literal::Int(_) => FieldType::Int,
        Literal::Float(_) => FieldType::Float,
    }
}

/// How `left` stands to `right`; `float_order` is the order of the two
/// when both are floats.
pub fn compare(left: &Literal, right: &Literal, float_order: Order) -> (r: Result<Order, SelectError>)
    ensures
        match order_spec(literal_value(*left), literal_value(*right), float_order) {
            Ok(o) => r == Ok::<Order, SelectError>(o),
            Err((a, b)) => r matches Err(e) && select_fails_as(e, SelectFail::Mismatch(a, b)),
        },
{
    match (left, right) {
        (Literal::Bool(a), Literal::Bool(b)) => Ok(
            if *a == *b {
                Order::Equal
            } else if !*a {
                Order::Less
            } else {
                Order::Greater
            },
        ),
        (Literal::Int(a), Literal::Int(b)) => Ok(
            if *a == *b {
                Order::Equal
            } else if *a < *b {
                Order::Less
            } else {
                Order::Greater
            },
        ),
        (Literal::Str(a), Literal::Str(b)) => Ok(
            if str_eq(a.as_str(), b.as_str()) {
                Order::Equal
            } else if crate::db::table::text_before(a.as_str(), b.as_str()) {
                Order::Less
            } else {
                Order::Greater
            },
        ),
        (Literal::Float(_), Literal::Float(_)) => Ok(float_order),
        _ => Err(SelectError::MismatchedOperandTypes { left: literal_type(left), right: literal_type(right) }),
    }
}

/// Whether the comparison `op` holds of values in the order `o`.
pub fn holds(op: CondOp, o: Order) -> (r: bool)
    ensures
        r == holds_spec(op, o),
{
    match op {
        CondOp::Equals => o == Order::Equal,
        CondOp::NotEquals => o != Order::Equal,
        CondOp::LessThan => o == Order::Less || o == Order::Equal,
        CondOp::LessEqual => o == Order::Less || o == Order::Equal,
        CondOp::Greater => o == Order::Greater,
        CondOp::GreaterEqual => o == Order::Greater || o == Order::Equal,
    }
}

/// The position of the first field of `fields` called `name`.
fn position_in(fields: &Vec<(String, Literal)>, name: &str) -> (r: Option<usize>)
    ensures
        match r {
            Some(i) => i < fields@.len() && fields@[i as int].0@ == name@ && forall|j: int|
                0 <= j < i ==> fields@[j].0@ != name@,
            None => forall|j: int| 0 <= j < fields@.len() ==> fields@[j].0@ != name@,
        },
{
    let mut i: usize = 0;
    while i < fields.len()
        invariant
            i <= fields@.len(),
            forall|j: int| 0 <= j < i ==> fields@[j].0@ != name@,
        decreases fields.len() - i,
    {
        if str_eq(fields[i].0.as_str(), name) {
            return Some(i);
        }
        i += 1;
    }
    None
}

/// The first field of a row with the name looked for is the one
/// `field_value` gives.
proof fn lemma_first_field(fields: Seq<(String, Literal)>, name: Seq<char>, i: int)
    requires
        0 <= i <= fields.len(),
        forall|j: int| 0 <= j < i ==> fields[j].0@ != name,
        i < fields.len() ==> fields[i].0@ == name,
    ensures
        i < fields.len() ==> field_value(named_values(fields), name) == Some(literal_value(fields[i].1)),
        i == fields.len() ==> field_value(named_values(fields), name) is None,
    decreases fields.len(),
{
    if fields.len() > 0 && i > 0 {
        lemma_first_field(fields.drop_first(), name, i - 1);
        assert(named_values(fields).drop_first() =~= named_values(fields.drop_first()));
    }
}

/// Whether the row `record` meets the conditions `conds`; `float_orders`
/// gives, condition by condition, the order of the row's value and the
/// condition's when both are floats.
pub fn record_passes(record: &Record, conds: &Vec<(String, CondOp, Literal)>, float_orders: &Vec<Order>) -> (r: Result<
    bool,
    SelectError,
>)
    requires
        float_orders@.len() == conds@.len(),
    ensures
        match passes_spec(record@, conds_view(conds@), float_orders@) {
            Ok(b) => r == Ok::<bool, SelectError>(b),
            Err(f) => r matches Err(e) && select_fails_as(e, f),
        },
{
    let fields = record.fields();
    let ghost cs = conds_view(conds@);
    let mut all = true;
    let mut k: usize = 0;
    assert(cs.take(0) =~= seq![]);
    while k < conds.len()
        invariant
            k <= conds@.len(),
            float_orders@.len() == conds@.len(),
            cs == conds_view(conds@),
            named_values(fields@) == record@,
            passes_spec(record@, cs.take(k as int), float_orders@) == Ok::<bool, SelectFail>(all),
        decreases conds.len() - k,
    {
        assert(cs.take(k + 1).drop_last() =~= cs.take(k as int));
        assert(cs.take(k + 1).last() == cs[k as int]);
        let name = conds[k].0.as_str();
        let i = match position_in(fields, name) {
            Some(i) => i,
            None => {
                proof {
                    lemma_first_field(fields@, name@, fields@.len() as int);
                    lemma_passes_prefix(record@, cs, float_orders@, k + 1);
                }
                return Err(SelectError::RecordField(text_of(name)));
            },
        };
        proof {
            lemma_first_field(fields@, name@, i as int);
        }
        let o = match compare(&fields[i].1, &conds[k].2, float_orders[k]) {
            Ok(o) => o,
            Err(e) => {
                proof {
                    lemma_passes_prefix(record@, cs, float_orders@, k + 1);
                }
                return Err(e);
            },
        };
        all = all && holds(conds[k].1, o);
        k += 1;
    }
    assert(cs.take(conds.len() as int) =~= cs);
    Ok(all)
}

/// A failure on a prefix of the conditions is the failure of all of them.
proof fn lemma_passes_prefix(
    row: Seq<(Seq<char>, LiteralValue)>,
    conds: Seq<(Seq<char>, CondOp, LiteralValue)>,
    float_orders: Seq<Order>,
    k: int,
)
    requires
        0 <= k <= conds.len(),
    ensures
        passes_spec(row, conds.take(k), float_orders) is Err ==> passes_spec(row, conds, float_orders) == passes_spec(
            row,
            conds.take(k),
            float_orders,
        ),
    decreases conds.len() - k,
{
    if k < conds.len() {
        lemma_passes_prefix(row, conds, float_orders, k + 1);
        assert(conds.take(k + 1).drop_last() =~= conds.take(k));
    } else {
        assert(conds.take(k) =~= conds);
    }
}

/// The row has a field called `name`.
pub open spec fn has_field(row: Seq<(Seq<char>, LiteralValue)>, name: Seq<char>) -> bool {
    exists|j: int| 0 <= j < row.len() && row[j].0 == name
}

/// The positions in the row `record` of the values of `fields`, in order:
/// for each field the first of the row's fields with its name. A field the
/// row does not have is an error.
pub fn project(record: &Record, fields: &Vec<String>) -> (r: Result<Vec<usize>, SelectError>)
    ensures
        match r {
            Ok(v) => v@.len() == fields@.len() && forall|k: int|
                #![trigger v@[k]]
                0 <= k < fields@.len() ==> v@[k] < record@.len() && record@[v@[k] as int].0 == fields@[k]@
                    && forall|j: int| 0 <= j < v@[k] ==> record@[j].0 != fields@[k]@,
            Err(e) => exists|k: int|
                0 <= k < fields@.len() && select_fails_as(e, SelectFail::RecordField(fields@[k]@)) && !has_field(
                    record@,
                    fields@[k]@,
                ) && forall|m: int| 0 <= m < k ==> has_field(record@, #[trigger] fields@[m]@),
        },
{
    let row = record.fields();
    let mut out: Vec<usize> = Vec::new();
    let mut k: usize = 0;
    while k < fields.len()
        invariant
            k <= fields@.len(),
            named_values(row@) == record@,
            out@.len() == k,
            forall|m: int|
                #![trigger out@[m]]
                0 <= m < k ==> out@[m] < record@.len() && record@[out@[m] as int].0 == fields@[m]@ && forall|j: int|
                    0 <= j < out@[m] ==> record@[j].0 != fields@[m]@,
        decreases fields.len() - k,
    {
        match position_in(row, fields[k].as_str()) {
            Some(i) => {
                assert(record@[i as int].0 == row@[i as int].0@);
                assert forall|j: int| 0 <= j < i implies record@[j].0 != fields@[k as int]@ by {
                    assert(record@[j].0 == row@[j].0@);
                }
                out.push(i);
            },
            None => {
                assert forall|j: int| 0 <= j < record@.len() implies record@[j].0 != fields@[k as int]@ by {
                    assert(record@[j].0 == row@[j].0@);
                }
                assert forall|m: int| 0 <= m < k implies has_field(record@, #[trigger] fields@[m]@) by {
                    assert(record@[out@[m] as int].0 == fields@[m]@);
                }
                assert(!has_field(record@, fields@[k as int]@));
                return Err(SelectError::RecordField(text_of(fields[k].as_str())));
            },
        }
        k += 1;
    }
    Ok(out)
}

/// Checks that the table has every listed field; the first it does not
/// have is reported.
pub fn check_fields(table: &Table, fields: &Vec<String>) -> (r: Result<(), SelectError>)
    requires
        table.wf(),
    ensures
        match r {
            Ok(()) => forall|k: int| 0 <= k < fields@.len() ==> table.schema_view().columns().contains_key(
                #[trigger] fields@[k]@,
            ),
            Err(e) => exists|k: int|
                0 <= k < fields@.len() && !table.schema_view().columns().contains_key(fields@[k]@) && select_fails_as(
                    e,
                    SelectFail::InvalidField(table.name_view(), fields@[k]@),
                ) && forall|m: int| 0 <= m < k ==> table.schema_view().columns().contains_key(#[trigger] fields@[m]@),
        },
{
    let schema = table.get_schema();
    let mut k: usize = 0;
    while k < fields.len()
        invariant
            k <= fields@.len(),
            schema.wf(),
            *schema == table.schema_view(),
            forall|m: int| 0 <= m < k ==> schema.columns().contains_key(#[trigger] fields@[m]@),
        decreases fields.len() - k,
    {
        if schema.field_type(fields[k].as_str()).is_none() {
            return Err(
                SelectError::InvalidField { table: text_of(table.get_name()), field: text_of(fields[k].as_str()) },
            );
        }
        k += 1;
    }
    Ok(())
}

/// The first of `fields` that the row does not have.
pub open spec fn first_missing(row: Seq<(Seq<char>, LiteralValue)>, fields: Seq<Seq<char>>) -> Option<Seq<char>>
    decreases fields.len(),
{
    if fields.len() == 0 {
        None
    } else if field_value(row, fields[0]) is None {
        Some(fields[0])
    } else {
        first_missing(row, fields.drop_first())
    }
}

/// The values of `fields` in a row that has them all, in order.
pub open spec fn projected(row: Seq<(Seq<char>, LiteralValue)>, fields: Seq<Seq<char>>) -> Seq<LiteralValue> {
    fields.map_values(|f: Seq<char>| field_value(row, f).unwrap())
}

/// The listed values of the first `n` of `rows`, in order: of each row
/// that meets the conditions `conds` (with `orders[i]` the float orders of
/// row `i`), the values of `fields`. The first failure is reported.
pub open spec fn listed_rows(
    rows: Seq<(KeyView, Seq<(Seq<char>, LiteralValue)>)>,
    fields: Seq<Seq<char>>,
    conds: Seq<(Seq<char>, CondOp, LiteralValue)>,
    orders: Seq<Seq<Order>>,
    n: int,
) -> Result<Seq<Seq<LiteralValue>>, SelectFail>
    decreases n,
{
    if n <= 0 {
        Ok(Seq::empty())
    } else {
        match listed_rows(rows, fields, conds, orders, n - 1) {
            Err(f) => Err(f),
            Ok(acc) => {
                let row = rows[n - 1].1;
                match passes_spec(row, conds, orders[n - 1]) {
                    Err(f) => Err(f),
                    Ok(pass) => if !pass {
                        Ok(acc)
                    } else {
                        match first_missing(row, fields) {
                            Some(x) => Err(SelectFail::RecordField(x)),
                            None => Ok(acc.push(projected(row, fields))),
                        }
                    },
                }
            },
        }
    }
}

/// A failure among the first `m` rows is the failure of the first `n`.
proof fn lemma_listed_failure_stays(
    rows: Seq<(KeyView, Seq<(Seq<char>, LiteralValue)>)>,
    fields: Seq<Seq<char>>,
    conds: Seq<(Seq<char>, CondOp, LiteralValue)>,
    orders: Seq<Seq<Order>>,
    m: int,
    n: int,
)
    requires
        0 <= m <= n,
        listed_rows(rows, fields, conds, orders, m) is Err,
    ensures
        listed_rows(rows, fields, conds, orders, n) == listed_rows(rows, fields, conds, orders, m),
    decreases n - m,
{
    if m < n {
        lemma_listed_failure_stays(rows, fields, conds, orders, m, n - 1);
    }
}

/// A row has a field exactly when it has a value for it.
proof fn lemma_has_field_value(row: Seq<(Seq<char>, LiteralValue)>, name: Seq<char>)
    ensures
        has_field(row, name) <==> field_value(row, name) is Some,
    decreases row.len(),
{
    if row.len() > 0 {
        lemma_has_field_value(row.drop_first(), name);
        if has_field(row, name) && row[0].0 != name {
            let j = choose|j: int| 0 <= j < row.len() && row[j].0 == name;
            assert(row.drop_first()[j - 1].0 == name);
        }
        if has_field(row.drop_first(), name) {
            let j = choose|j: int| 0 <= j < row.len() - 1 && row.drop_first()[j].0 == name;
            assert(row[j + 1].0 == name);
        }
    }
}

/// The value of the first field called `name`, at place `i`.
proof fn lemma_value_at_first(row: Seq<(Seq<char>, LiteralValue)>, name: Seq<char>, i: int)
    requires
        0 <= i < row.len(),
        row[i].0 == name,
        forall|j: int| 0 <= j < i ==> row[j].0 != name,
    ensures
        field_value(row, name) == Some(row[i].1),
    decreases i,
{
    if i > 0 {
        lemma_value_at_first(row.drop_first(), name, i - 1);
    }
}

/// The first field missing, where every field before the `k`-th is there
/// and that one is not.
proof fn lemma_first_missing_at(row: Seq<(Seq<char>, LiteralValue)>, fields: Seq<Seq<char>>, k: int)
    requires
        0 <= k < fields.len(),
        field_value(row, fields[k]) is None,
        forall|m: int| 0 <= m < k ==> field_value(row, #[trigger] fields[m]) is Some,
    ensures
        first_missing(row, fields) == Some(fields[k]),
    decreases k,
{
    if k > 0 {
        assert(field_value(row, fields[0]) is Some);
        assert forall|m: int| 0 <= m < k - 1 implies field_value(row, #[trigger] fields.drop_first()[m]) is Some by {
            assert(fields.drop_first()[m] == fields[m + 1]);
        }
        lemma_first_missing_at(row, fields.drop_first(), k - 1);
    }
}

/// No field is missing where each has a value.
proof fn lemma_none_missing(row: Seq<(Seq<char>, LiteralValue)>, fields: Seq<Seq<char>>)
    requires
        forall|m: int| 0 <= m < fields.len() ==> field_value(row, #[trigger] fields[m]) is Some,
    ensures
        first_missing(row, fields) is None,
    decreases fields.len(),
{
    if fields.len() > 0 {
        assert(field_value(row, fields[0]) is Some);
        assert forall|m: int| 0 <= m < fields.len() - 1 implies field_value(row, #[trigger] fields.drop_first()[m]) is Some by {
            assert(fields.drop_first()[m] == fields[m + 1]);
        }
        lemma_none_missing(row, fields.drop_first());
    }
}

/// A literal with the same value.
fn copy_literal(l: &Literal) -> (c: Literal)
    ensures
        literal_value(c) == literal_value(*l),
{
    match l {
        Literal::Bool(b) => Literal::Bool(*b),
        Literal::Str(s) => Literal::Str(text_of(s.as_str())),
        Literal::Int(i) => Literal::Int(*i),
        Literal::Float(s) => Literal::Float(text_of(s.as_str())),
    }
}

/// What a list of literals holds.
pub open spec fn literal_values(v: Seq<Literal>) -> Seq<LiteralValue> {
    v.map_values(|l: Literal| literal_value(l))
}

/// The rows a `SELECT` on `table` lists, in the order of their keys: the
/// values of `fields` of each row that meets `conds`, where
/// `float_orders[i][k]` is the order of row `i`'s value and condition
/// `k`'s literal when both are floats. A field the table does not have is
/// reported first; then the first failure row by row.
pub fn select_rows(
    table: &Table,
    fields: &Vec<String>,
    conds: &Vec<(String, CondOp, Literal)>,
    float_orders: &Vec<Vec<Order>>,
) -> (r: Result<Vec<Vec<Literal>>, SelectError>)
    requires
        table.wf(),
        float_orders@.len() == table.rows().len(),
        forall|i: int| 0 <= i < float_orders@.len() ==> #[trigger] float_orders@[i]@.len() == conds@.len(),
    ensures
        (forall|k: int| 0 <= k < fields@.len() ==> table.schema_view().columns().contains_key(#[trigger] fields@[k]@))
            ==> (match listed_rows(
            table.rows(),
            fields@.map_values(|f: String| f@),
            conds_view(conds@),
            float_orders@.map_values(|o: Vec<Order>| o@),
            table.rows().len() as int,
        ) {
            Ok(vs) => r matches Ok(v) && v@.len() == vs.len() && forall|i: int|
                0 <= i < vs.len() ==> literal_values(#[trigger] v@[i]@) == vs[i],
            Err(f) => r matches Err(e) && select_fails_as(e, f),
        }),
        !(forall|k: int| 0 <= k < fields@.len() ==> table.schema_view().columns().contains_key(#[trigger] fields@[k]@))
            ==> (r matches Err(e) && exists|k: int|
            0 <= k < fields@.len() && !table.schema_view().columns().contains_key(fields@[k]@) && select_fails_as(
                e,
                SelectFail::InvalidField(table.name_view(), fields@[k]@),
            ) && forall|m: int| 0 <= m < k ==> table.schema_view().columns().contains_key(#[trigger] fields@[m]@)),
{
    match check_fields(table, fields) {
        Ok(()) => {},
        Err(e) => {
            return Err(e);
        },
    }
    let records = table.records();
    let ghost rows = table.rows();
    let ghost fs = fields@.map_values(|f: String| f@);
    let ghost cs = conds_view(conds@);
    let ghost os = float_orders@.map_values(|o: Vec<Order>| o@);
    let mut out: Vec<Vec<Literal>> = Vec::new();
    let mut i: usize = 0;
    while i < records.len()
        invariant
            i <= records@.len(),
            records@.map_values(|x: (crate::db::table::Key, Record)| crate::db::table::row_view(x)) == rows,
            rows == table.rows(),
            forall|k: int| 0 <= k < fields@.len() ==> table.schema_view().columns().contains_key(#[trigger] fields@[k]@),
            float_orders@.len() == rows.len(),
            forall|t: int| 0 <= t < float_orders@.len() ==> #[trigger] float_orders@[t]@.len() == conds@.len(),
            fs == fields@.map_values(|f: String| f@),
            cs == conds_view(conds@),
            os == float_orders@.map_values(|o: Vec<Order>| o@),
            listed_rows(rows, fs, cs, os, i as int) matches Ok(vs) && out@.len() == vs.len() && forall|j: int|
                0 <= j < vs.len() ==> literal_values(#[trigger] out@[j]@) == vs[j],
        decreases records@.len() - i,
    {
        let record = &records[i].1;
        assert(record@ == rows[i as int].1);
        assert(os[i as int] == float_orders@[i as int]@);
        let ghost acc = listed_rows(rows, fs, cs, os, i as int)->Ok_0;
        let pass = match record_passes(record, conds, &float_orders[i]) {
            Ok(b) => b,
            Err(e) => {
                proof {
                    lemma_listed_failure_stays(rows, fs, cs, os, i + 1, rows.len() as int);
                }
                return Err(e);
            },
        };
        if pass {
            let pos = match project(record, fields) {
                Ok(p) => p,
                Err(e) => {
                    proof {
                        let k = choose|k: int|
                            0 <= k < fields@.len() && select_fails_as(e, SelectFail::RecordField(fields@[k]@))
                                && !has_field(record@, fields@[k]@) && forall|m: int|
                                0 <= m < k ==> has_field(record@, #[trigger] fields@[m]@);
                        lemma_has_field_value(record@, fields@[k]@);
                        assert forall|m: int| 0 <= m < k implies field_value(record@, #[trigger] fs[m]) is Some by {
                            assert(has_field(record@, fields@[m]@));
                            lemma_has_field_value(record@, fields@[m]@);
                        }
                        lemma_first_missing_at(record@, fs, k);
                        lemma_listed_failure_stays(rows, fs, cs, os, i + 1, rows.len() as int);
                    }
                    return Err(e);
                },
            };
            let row = record.fields();
            let mut vals: Vec<Literal> = Vec::new();
            let mut k: usize = 0;
            while k < pos.len()
                invariant
                    k <= pos@.len(),
                    pos@.len() == fields@.len(),
                    fs == fields@.map_values(|f: String| f@),
                    named_values(row@) == record@,
                    forall|t: int|
                        #![trigger pos@[t]]
                        0 <= t < fields@.len() ==> pos@[t] < record@.len() && record@[pos@[t] as int].0 == fields@[t]@
                            && forall|j: int| 0 <= j < pos@[t] ==> record@[j].0 != fields@[t]@,
                    vals@.len() == k,
                    forall|t: int| 0 <= t < k ==> literal_value(#[trigger] vals@[t]) == field_value(record@, fs[t]).unwrap(),
                decreases pos@.len() - k,
            {
                let at = pos[k];
                proof {
                    lemma_value_at_first(record@, fs[k as int], at as int);
                }
                vals.push(copy_literal(&row[at].1));
                k += 1;
            }
            proof {
                assert forall|m: int| 0 <= m < fs.len() implies field_value(record@, #[trigger] fs[m]) is Some by {
                    lemma_value_at_first(record@, fs[m], pos@[m] as int);
                }
                lemma_none_missing(record@, fs);
                assert(literal_values(vals@) =~= projected(record@, fs));
            }
            out.push(vals);
        }
        i += 1;
    }
    Ok(out)
}

} // verus!
