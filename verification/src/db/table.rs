//! Tables and the database: rows kept in the order of their keys, with no
//! key used twice.
use vstd::prelude::*;
use crate::db::commands::{columns_view, literal_value, named_values, Literal, LiteralValue};
use crate::db::errors::{CreateErr, DbError, DeleteErr, InsertErr};
use crate::db::schema::{type_word, FieldType, Schema};
use crate::db::tokens::{chars_of, text_of};
use crate::text::{decimal, i64_text, str_eq};

verus! {

/// The key of a row: an integer or a string, as the database was made.
#[derive(Debug)]
pub enum Key {
    Int(i64),
    Str(String),
}

/// What a key holds.
pub enum KeyView {
    Int(int),
    Str(Seq<char>),
}

impl View for Key {
    type V = KeyView;

    open spec fn view(&self) -> KeyView {
        match self {
            Key::Int(i) => KeyView::Int(*i as int),
            Key::Str(s) => KeyView::Str(s@),
        }
    }
}

/// Strict lexicographic order of character sequences, by code point.
pub open spec fn text_lt(a: Seq<char>, b: Seq<char>) -> bool
    decreases a.len(),
{
    if a.len() == 0 {
        b.len() > 0
    } else if b.len() == 0 {
        false
    } else if a[0] != b[0] {
        a[0] < b[0]
    } else {
        text_lt(a.drop_first(), b.drop_first())
    }
}

/// The order of keys: integers by value, strings by `text_lt`, and every
/// integer before every string.
pub open spec fn key_lt(a: KeyView, b: KeyView) -> bool {
    match (a, b) {
        (KeyView::Int(x), KeyView::Int(y)) => x < y,
        (KeyView::Str(x), KeyView::Str(y)) => text_lt(x, y),
        (KeyView::Int(_), KeyView::Str(_)) => true,
        (KeyView::Str(_), KeyView::Int(_)) => false,
    }
}

/// The type of the column a key comes from.
pub open spec fn key_type_of(k: KeyView) -> FieldType {
    match k {
        KeyView::Int(_) => FieldType::Int,
        KeyView::Str(_) => FieldType::String,
    }
}

/// The text of a key, as `ToString` writes it.
pub open spec fn key_text(k: KeyView) -> Seq<char> {
    match k {
        KeyView::Int(i) => decimal(i),
        KeyView::Str(s) => s,
    }
}

/// The key a value stands for: integers and strings are keys.
pub open spec fn key_of_value(v: LiteralValue) -> Option<KeyView> {
    match v {
        LiteralValue::Int(i) => Some(KeyView::Int(i)),
        LiteralValue::Str(s) => Some(KeyView::Str(s)),
        _ => None,
    }
}

proof fn lemma_text_lt_irreflexive(a: Seq<char>)
    ensures
        !text_lt(a, a),
    decreases a.len(),
{
    if a.len() > 0 {
        lemma_text_lt_irreflexive(a.drop_first());
    }
}

proof fn lemma_text_lt_transitive(a: Seq<char>, b: Seq<char>, c: Seq<char>)
    requires
        text_lt(a, b),
        text_lt(b, c),
    ensures
        text_lt(a, c),
    decreases a.len(),
{
    if a.len() > 0 && b.len() > 0 && c.len() > 0 && a[0] == b[0] && b[0] == c[0] {
        lemma_text_lt_transitive(a.drop_first(), b.drop_first(), c.drop_first());
    }
}

proof fn lemma_text_lt_total(a: Seq<char>, b: Seq<char>)
    ensures
        a == b || text_lt(a, b) || text_lt(b, a),
    decreases a.len(),
{
    if a.len() > 0 && b.len() > 0 && a[0] == b[0] {
        lemma_text_lt_total(a.drop_first(), b.drop_first());
        if a.drop_first() == b.drop_first() {
            assert(a =~= seq![a[0]] + a.drop_first());
            assert(b =~= seq![b[0]] + b.drop_first());
        }
    } else if a.len() > 0 && b.len() > 0 {
        assert(a[0] < b[0] || b[0] < a[0]);
    } else if a.len() == 0 && b.len() == 0 {
        assert(a =~= b);
    }
}

/// `key_lt` is a strict total order.
pub proof fn lemma_key_order(a: KeyView, b: KeyView, c: KeyView)
    ensures
        !key_lt(a, a),
        key_lt(a, b) && key_lt(b, c) ==> key_lt(a, c),
        a == b || key_lt(a, b) || key_lt(b, a),
{
    if let KeyView::Str(x) = a {
        lemma_text_lt_irreflexive(x);
        if let KeyView::Str(y) = b {
            lemma_text_lt_total(x, y);
            if let KeyView::Str(z) = c {
                if text_lt(x, y) && text_lt(y, z) {
                    lemma_text_lt_transitive(x, y, z);
                }
            }
        }
    }
}

impl Key {
    /// The type of column this key belongs to.
    pub fn key_type(&self) -> (t: FieldType)
        ensures
            t == key_type_of(self@),
    {
        match self {
            Key::Int(_) => FieldType::Int,
            Key::Str(_) => FieldType::String,
        }
    }

    /// The key a value stands for, if it is an integer or a string.
    pub fn from_value(val: &Literal) -> (r: Option<Key>)
        ensures
            match key_of_value(literal_value(*val)) {
                Some(k) => r matches Some(x) && x@ == k,
                None => r is None,
            },
    {
        match val {
            Literal::Int(i) => Some(Key::Int(*i)),
            Literal::Str(s) => Some(Key::Str(text_of(s.as_str()))),
            _ => None,
        }
    }

    /// The text of the key.
    pub fn to_string(&self) -> (s: String)
        ensures
            s@ == key_text(self@),
    {
        match self {
            Key::Int(i) => i64_text(*i),
            Key::Str(s) => text_of(s.as_str()),
        }
    }

    /// A key equal to this one.
    pub fn duplicate(&self) -> (k: Key)
        ensures
            k@ == self@,
    {
        match self {
            Key::Int(i) => Key::Int(*i),
            Key::Str(s) => Key::Str(text_of(s.as_str())),
        }
    }

    /// Whether the two keys are equal.
    pub fn same(&self, other: &Key) -> (r: bool)
        ensures
            r == (self@ == other@),
    {
        match (self, other) {
            (Key::Int(a), Key::Int(b)) => *a == *b,
            (Key::Str(a), Key::Str(b)) => str_eq(a.as_str(), b.as_str()),
            _ => false,
        }
    }

    /// Whether this key comes before `other` in the order of keys.
    pub fn before(&self, other: &Key) -> (r: bool)
        ensures
            r == key_lt(self@, other@),
    {
        match (self, other) {
            (Key::Int(a), Key::Int(b)) => *a < *b,
            (Key::Str(a), Key::Str(b)) => text_before(a.as_str(), b.as_str()),
            (Key::Int(_), Key::Str(_)) => true,
            (Key::Str(_), Key::Int(_)) => false,
        }
    }
}

/// Whether `a` comes before `b` in the order of `text_lt`.
pub(crate) fn text_before(a: &str, b: &str) -> (r: bool)
    ensures
        r == text_lt(a@, b@),
{
    let x = chars_of(a);
    let y = chars_of(b);
    let mut i: usize = 0;
    assert(a@.skip(0) =~= a@);
    assert(b@.skip(0) =~= b@);
    assert(x@.take(0) =~= y@.take(0));
    while i < x.len() && i < y.len()
        invariant
            x@ == a@,
            y@ == b@,
            i <= x.len(),
            i <= y.len(),
            x@.take(i as int) == y@.take(i as int),
            text_lt(a@, b@) == text_lt(a@.skip(i as int), b@.skip(i as int)),
        decreases x.len() - i,
    {
        let ghost (xs, ys) = (a@.skip(i as int), b@.skip(i as int));
        assert(xs[0] == x@[i as int]);
        assert(ys[0] == y@[i as int]);
        if x[i] != y[i] {
            return x[i] < y[i];
        }
        assert(xs.drop_first() =~= a@.skip(i + 1));
        assert(ys.drop_first() =~= b@.skip(i + 1));
        assert(x@.take(i + 1) =~= x@.take(i as int).push(x@[i as int]));
        assert(y@.take(i + 1) =~= y@.take(i as int).push(y@[i as int]));
        i += 1;
    }
    assert(a@.skip(i as int).len() == 0 || b@.skip(i as int).len() == 0);
    i == x.len() && i < y.len()
}

/// A row: its values by column name, in the order given.
pub struct Record {
    fields: Vec<(String, Literal)>,
}

impl View for Record {
    type V = Seq<(Seq<char>, LiteralValue)>;

    closed spec fn view(&self) -> Seq<(Seq<char>, LiteralValue)> {
        named_values(self.fields@)
    }
}

/// The value of the first field called `name`, if any.
pub open spec fn field_value(r: Seq<(Seq<char>, LiteralValue)>, name: Seq<char>) -> Option<LiteralValue>
    decreases r.len(),
{
    if r.len() == 0 {
        None
    } else if r[0].0 == name {
        Some(r[0].1)
    } else {
        field_value(r.drop_first(), name)
    }
}

impl Record {
    /// A row of the given values.
    pub fn from_map(map: Vec<(String, Literal)>) -> (r: Record)
        ensures
            r@ == named_values(map@),
    {
        Record { fields: map }
    }

    /// The values of the row, by column name.
    pub fn fields(&self) -> (r: &Vec<(String, Literal)>)
        ensures
            named_values(r@) == self@,
    {
        &self.fields
    }

    /// The key of the row: the value of its key column, when that is an
    /// integer or a string.
    pub fn get_key(&self, schema: &Schema) -> (r: Option<Key>)
        ensures
            match field_value(self@, schema.key_name()) {
                Some(v) => match key_of_value(v) {
                    Some(k) => r matches Some(x) && x@ == k,
                    None => r is None,
                },
                None => r is None,
            },
    {
        let key = schema.get_key();
        let mut i: usize = 0;
        assert(self@.skip(0) =~= self@);
        while i < self.fields.len()
            invariant
                i <= self.fields.len(),
                key@ == schema.key_name(),
                field_value(self@, key@) == field_value(self@.skip(i as int), key@),
            decreases self.fields.len() - i,
        {
            let ghost rest = self@.skip(i as int);
            assert(rest[0] == (self.fields@[i as int].0@, literal_value(self.fields@[i as int].1)));
            if str_eq(self.fields[i].0.as_str(), key) {
                return Key::from_value(&self.fields[i].1);
            }
            assert(rest.drop_first() =~= self@.skip(i + 1));
            i += 1;
        }
        None
    }
}

/// What a row is, with its key.
pub open spec fn row_view(row: (Key, Record)) -> (KeyView, Seq<(Seq<char>, LiteralValue)>) {
    (row.0@, row.1@)
}

/// Rows in strictly increasing order of their keys.
pub open spec fn sorted_rows(rows: Seq<(KeyView, Seq<(Seq<char>, LiteralValue)>)>) -> bool {
    forall|i: int, j: int| 0 <= i < j < rows.len() ==> key_lt(#[trigger] rows[i].0, #[trigger] rows[j].0)
}

/// The rows by key.
pub open spec fn rows_map(rows: Seq<(KeyView, Seq<(Seq<char>, LiteralValue)>)>) -> Map<
    KeyView,
    Seq<(Seq<char>, LiteralValue)>,
>
    decreases rows.len(),
{
    if rows.len() == 0 {
        Map::empty()
    } else {
        rows_map(rows.drop_last()).insert(rows.last().0, rows.last().1)
    }
}

/// In sorted rows, the map holds each row under its key, and nothing else.
proof fn lemma_rows_map(rows: Seq<(KeyView, Seq<(Seq<char>, LiteralValue)>)>)
    requires
        sorted_rows(rows),
    ensures
        forall|k: KeyView| #[trigger] rows_map(rows).contains_key(k) <==> exists|i: int| 0 <= i < rows.len() && rows[i].0 == k,
        forall|i: int| 0 <= i < rows.len() ==> rows_map(rows)[#[trigger] rows[i].0] == rows[i].1,
    decreases rows.len(),
{
    if rows.len() > 0 {
        let init = rows.drop_last();
        assert(sorted_rows(init)) by {
            assert forall|i: int, j: int| 0 <= i < j < init.len() implies key_lt(#[trigger] init[i].0, #[trigger] init[j].0) by {
                assert(init[i] == rows[i] && init[j] == rows[j]);
            }
        }
        lemma_rows_map(init);
        assert forall|k: KeyView| #[trigger] rows_map(rows).contains_key(k) <==> exists|i: int| 0 <= i < rows.len() && rows[i].0 == k by {
            if rows_map(rows).contains_key(k) && k != rows.last().0 {
                assert(rows_map(init).contains_key(k));
                let i = choose|i: int| 0 <= i < init.len() && init[i].0 == k;
                assert(init[i] == rows[i]);
                assert(rows[i].0 == k);
            }
            if k == rows.last().0 {
                assert(rows[rows.len() - 1].0 == k);
            }
            if exists|i: int| 0 <= i < rows.len() && rows[i].0 == k {
                let i = choose|i: int| 0 <= i < rows.len() && rows[i].0 == k;
                if i < rows.len() - 1 {
                    assert(init[i].0 == k);
                    assert(rows_map(init).contains_key(k));
                }
            }
        }
        assert forall|i: int| 0 <= i < rows.len() implies rows_map(rows)[#[trigger] rows[i].0] == rows[i].1 by {
            if i < rows.len() - 1 {
                assert(init[i] == rows[i]);
                assert(key_lt(rows[i].0, rows[rows.len() - 1].0));
                lemma_key_order(rows[i].0, rows[i].0, rows[i].0);
            }
        }
    }
}

/// A table: a name, a schema, and its rows in the order of their keys.
pub struct Table {
    name: String,
    schema: Schema,
    records: Vec<(Key, Record)>,
}

impl Table {
    /// The rows, with their keys, in the order of the keys.
    pub closed spec fn rows(&self) -> Seq<(KeyView, Seq<(Seq<char>, LiteralValue)>)> {
        self.records@.map_values(|r: (Key, Record)| row_view(r))
    }

    /// The rows by key.
    pub open spec fn row_map(&self) -> Map<KeyView, Seq<(Seq<char>, LiteralValue)>> {
        rows_map(self.rows())
    }

    pub closed spec fn name_view(&self) -> Seq<char> {
        self.name@
    }

    pub closed spec fn schema_view(&self) -> Schema {
        self.schema
    }

    /// The schema is well formed and the rows are in strictly increasing
    /// order of their keys, so no key is used twice.
    pub closed spec fn wf(&self) -> bool {
        &&& self.schema.wf()
        &&& sorted_rows(self.rows())
    }

    /// An empty table called `name` with the given schema.
    pub fn from_schema(name: &str, schema: &Schema) -> (t: Table)
        requires
            schema.wf(),
        ensures
            t.wf(),
            t.name_view() == name@,
            t.schema_view().columns() == schema.columns(),
            t.schema_view().key_name() == schema.key_name(),
            columns_view(t.schema_view().column_list()) == columns_view(schema.column_list()),
            t.rows() == Seq::<(KeyView, Seq<(Seq<char>, LiteralValue)>)>::empty(),
    {
        let t = Table { name: text_of(name), schema: schema.duplicate(), records: Vec::new() };
        assert(t.rows() =~= seq![]);
        t
    }

    pub fn get_schema(&self) -> (s: &Schema)
        ensures
            *s == self.schema_view(),
            self.wf() ==> s.wf(),
    {
        &self.schema
    }

    pub fn get_name(&self) -> (s: &str)
        ensures
            s@ == self.name_view(),
    {
        self.name.as_str()
    }

    /// The rows with their keys, in the order of the keys.
    pub fn records(&self) -> (r: &Vec<(Key, Record)>)
        ensures
            r@.map_values(|x: (Key, Record)| row_view(x)) == self.rows(),
    {
        &self.records
    }

    /// The type of the column `field`; a field the table does not have is
    /// an error.
    pub fn get_field_type(&self, field: &str) -> (r: Result<FieldType, DbError>)
        requires
            self.wf(),
        ensures
            self.schema_view().columns().contains_key(field@) ==> r == Ok::<FieldType, DbError>(
                self.schema_view().columns()[field@],
            ),
            !self.schema_view().columns().contains_key(field@) ==> (r matches Err(
                DbError::Insert(InsertErr::InvalidField { table, field: f }),
            ) && table@ == self.name_view() && f@ == field@),
    {
        match self.schema.field_type(field) {
            Some(t) => Ok(*t),
            None => Err(DbError::Insert(InsertErr::InvalidField { table: text_of(self.name.as_str()), field: text_of(field) })),
        }
    }

    /// The position of the first row whose key is not before `key`.
    fn position(&self, key: &Key) -> (p: usize)
        requires
            self.wf(),
        ensures
            p <= self.rows().len(),
            forall|i: int| 0 <= i < p ==> key_lt(#[trigger] self.rows()[i].0, key@),
            p < self.rows().len() ==> !key_lt(self.rows()[p as int].0, key@),
    {
        let mut p: usize = 0;
        while p < self.records.len()
            invariant
                p <= self.records.len(),
                self.rows().len() == self.records.len(),
                forall|i: int| 0 <= i < p ==> key_lt(#[trigger] self.rows()[i].0, key@),
            decreases self.records.len() - p,
        {
            assert(self.rows()[p as int].0 == self.records@[p as int].0@);
            if !self.records[p].0.before(key) {
                return p;
            }
            p += 1;
        }
        p
    }

    /// Whether a row has the key `key`.
    pub fn contains(&self, key: &Key) -> (r: bool)
        requires
            self.wf(),
        ensures
            r == self.row_map().contains_key(key@),
    {
        proof {
            lemma_rows_map(self.rows());
        }
        let p = self.position(key);
        if p < self.records.len() && self.records[p].0.same(key) {
            assert(self.rows()[p as int].0 == key@);
            return true;
        }
        proof {
            if exists|i: int| 0 <= i < self.rows().len() && self.rows()[i].0 == key@ {
                let i = choose|i: int| 0 <= i < self.rows().len() && self.rows()[i].0 == key@;
                lemma_key_order(key@, key@, key@);
                if i >= p {
                    lemma_key_order(self.rows()[p as int].0, key@, key@);
                    if i > p {
                        assert(key_lt(self.rows()[p as int].0, self.rows()[i].0));
                    }
                }
            }
        }
        false
    }

    /// Adds the row `record` under `key`; a key that is already used is an
    /// error, and the table is left as it was.
    pub fn insert(&mut self, key: &Key, record: Record) -> (r: Result<(), DbError>)
        requires
            old(self).wf(),
        ensures
            final(self).wf(),
            final(self).name_view() == old(self).name_view(),
            final(self).schema_view() == old(self).schema_view(),
            old(self).row_map().contains_key(key@) ==> (r matches Err(
                DbError::Insert(InsertErr::KeyUsed { table, key: k }),
            ) && table@ == old(self).name_view() && k@ == key_text(key@) && final(self).rows() == old(self).rows()),
            !old(self).row_map().contains_key(key@) ==> (r is Ok && final(self).row_map() == old(self).row_map().insert(
                key@,
                record@,
            )),
    {
        if self.contains(key) {
            return Err(DbError::Insert(InsertErr::KeyUsed { table: text_of(self.name.as_str()), key: key.to_string() }));
        }
        let p = self.position(key);
        let ghost before = self.rows();
        let ghost rv = record@;
        proof {
            lemma_rows_map(before);
            if p < before.len() {
                lemma_key_order(before[p as int].0, key@, key@);
                assert(before[p as int].0 != key@);
            }
        }
        self.records.insert(p, (key.duplicate(), record));
        let ghost after = self.rows();
        assert(after =~= before.insert(p as int, (key@, rv)));
        proof {
            assert forall|i: int, j: int| 0 <= i < j < after.len() implies key_lt(#[trigger] after[i].0, #[trigger] after[j].0) by {
                if j < p {
                    assert(after[i] == before[i] && after[j] == before[j]);
                } else if j == p {
                    assert(after[i] == before[i]);
                } else if i < p {
                    assert(after[i] == before[i] && after[j] == before[j - 1]);
                    lemma_key_order(after[i].0, key@, after[j].0);
                    if j - 1 > p {
                        assert(key_lt(before[p as int].0, before[j - 1].0));
                    }
                    lemma_key_order(key@, before[p as int].0, after[j].0);
                } else if i == p {
                    assert(after[j] == before[j - 1]);
                    if j - 1 > p {
                        assert(key_lt(before[p as int].0, before[j - 1].0));
                    }
                    lemma_key_order(key@, before[p as int].0, after[j].0);
                } else {
                    assert(after[i] == before[i - 1] && after[j] == before[j - 1]);
                }
            }
            lemma_rows_map(after);
            assert(rows_map(after) =~= rows_map(before).insert(key@, rv)) by {
                assert forall|k: KeyView| #[trigger] rows_map(after).contains_key(k) <==> rows_map(before).insert(key@, rv).contains_key(k) by {
                    if rows_map(after).contains_key(k) {
                        let i = choose|i: int| 0 <= i < after.len() && after[i].0 == k;
                        if i < p {
                            assert(after[i] == before[i]);
                        } else if i > p {
                            assert(after[i] == before[i - 1]);
                        }
                    }
                    if rows_map(before).contains_key(k) {
                        let i = choose|i: int| 0 <= i < before.len() && before[i].0 == k;
                        if i < p {
                            assert(after[i] == before[i]);
                        } else {
                            assert(after[i + 1] == before[i]);
                        }
                    }
                    if k == key@ {
                        assert(after[p as int].0 == key@);
                    }
                }
                assert forall|k: KeyView| #[trigger] rows_map(after).contains_key(k) implies rows_map(after)[k] == rows_map(before).insert(key@, rv)[k] by {
                    let i = choose|i: int| 0 <= i < after.len() && after[i].0 == k;
                    if i < p {
                        assert(after[i] == before[i]);
                    } else if i > p {
                        assert(after[i] == before[i - 1]);
                    }
                }
            }
        }
        Ok(())
    }

    /// Removes the row with the key `key`; a key no row has is an error,
    /// and the table is left as it was.
    pub fn delete(&mut self, key: &Key) -> (r: Result<(), DbError>)
        requires
            old(self).wf(),
        ensures
            final(self).wf(),
            final(self).name_view() == old(self).name_view(),
            final(self).schema_view() == old(self).schema_view(),
            old(self).row_map().contains_key(key@) ==> (r is Ok && final(self).row_map() == old(self).row_map().remove(
                key@,
            )),
            !old(self).row_map().contains_key(key@) ==> (r matches Err(
                DbError::Delete(DeleteErr::InvalidKey { table, key: k }),
            ) && table@ == old(self).name_view() && k@ == key_text(key@) && final(self).rows() == old(self).rows()),
    {
        if !self.contains(key) {
            return Err(DbError::Delete(DeleteErr::InvalidKey { table: text_of(self.name.as_str()), key: key.to_string() }));
        }
        let p = self.position(key);
        let ghost before = self.rows();
        proof {
            lemma_rows_map(before);
            let i = choose|i: int| 0 <= i < before.len() && before[i].0 == key@;
            lemma_key_order(key@, key@, key@);
            if i > p {
                lemma_key_order(before[p as int].0, key@, key@);
                assert(key_lt(before[p as int].0, before[i].0));
            }
            assert(i >= p);
            if i != p {
                lemma_key_order(before[p as int].0, key@, key@);
                assert(key_lt(before[p as int].0, before[i].0));
                assert(false);
            }
        }
        let _ = self.records.remove(p);
        let ghost after = self.rows();
        assert(after =~= before.remove(p as int));
        proof {
            assert forall|i: int, j: int| 0 <= i < j < after.len() implies key_lt(#[trigger] after[i].0, #[trigger] after[j].0) by {
                if j < p {
                    assert(after[i] == before[i] && after[j] == before[j]);
                } else if i < p {
                    assert(after[i] == before[i] && after[j] == before[j + 1]);
                } else {
                    assert(after[i] == before[i + 1] && after[j] == before[j + 1]);
                }
            }
            lemma_rows_map(after);
            assert(rows_map(after) =~= rows_map(before).remove(key@)) by {
                assert forall|k: KeyView| #[trigger] rows_map(after).contains_key(k) <==> rows_map(before).remove(key@).contains_key(k) by {
                    if rows_map(after).contains_key(k) {
                        let i = choose|i: int| 0 <= i < after.len() && after[i].0 == k;
                        if i < p {
                            assert(after[i] == before[i]);
                            assert(key_lt(before[i].0, before[p as int].0));
                            lemma_key_order(k, k, k);
                        } else {
                            assert(after[i] == before[i + 1]);
                            assert(key_lt(before[p as int].0, before[i + 1].0));
                            lemma_key_order(k, k, k);
                        }
                    }
                    if rows_map(before).remove(key@).contains_key(k) {
                        let i = choose|i: int| 0 <= i < before.len() && before[i].0 == k;
                        if i < p {
                            assert(after[i] == before[i]);
                        } else if i > p {
                            assert(after[i - 1] == before[i]);
                        }
                    }
                }
                assert forall|k: KeyView| #[trigger] rows_map(after).contains_key(k) implies rows_map(after)[k] == rows_map(before).remove(key@)[k] by {
                    let i = choose|i: int| 0 <= i < after.len() && after[i].0 == k;
                    if i < p {
                        assert(after[i] == before[i]);
                    } else {
                        assert(after[i] == before[i + 1]);
                    }
                }
            }
        }
        Ok(())
    }
}

/// The database: tables with distinct names, whose keys are all of one
/// type.
pub struct Database {
    key_type: FieldType,
    tables: Vec<Table>,
}

/// The names of tables.
pub open spec fn table_names(tables: Seq<Table>) -> Seq<Seq<char>> {
    tables.map_values(|t: Table| t.name_view())
}

/// The two databases have the same key type and the same tables, with the
/// same names, schemas and rows.
pub open spec fn same_tables(before: Database, after: Database) -> bool {
    &&& after.key_type_view() == before.key_type_view()
    &&& after.table_list().len() == before.table_list().len()
    &&& forall|j: int| 0 <= j < before.table_list().len() ==> {
        &&& (#[trigger] after.table_list()[j]).name_view() == before.table_list()[j].name_view()
        &&& after.table_list()[j].schema_view() == before.table_list()[j].schema_view()
        &&& after.table_list()[j].rows() == before.table_list()[j].rows()
    }
}

/// `after` is `before` with the rows of table `i` now `rows`.
pub open spec fn rows_changed(
    before: Database,
    after: Database,
    i: int,
    rows: Map<KeyView, Seq<(Seq<char>, LiteralValue)>>,
) -> bool {
    &&& after.key_type_view() == before.key_type_view()
    &&& after.table_list().len() == before.table_list().len()
    &&& forall|j: int| 0 <= j < before.table_list().len() ==> {
        &&& (#[trigger] after.table_list()[j]).name_view() == before.table_list()[j].name_view()
        &&& after.table_list()[j].schema_view() == before.table_list()[j].schema_view()
        &&& j != i ==> after.table_list()[j].rows() == before.table_list()[j].rows()
    }
    &&& after.table_list()[i].row_map() == rows
}

/// A well-formed table whose key column has the type `key_type`.
pub open spec fn table_fits(t: Table, key_type: FieldType) -> bool {
    t.wf() && t.schema_view().columns()[t.schema_view().key_name()] == key_type
}

impl Database {
    /// The tables, in the order they were made.
    pub closed spec fn table_list(&self) -> Seq<Table> {
        self.tables@
    }

    pub closed spec fn key_type_view(&self) -> FieldType {
        self.key_type
    }

    /// No two tables share a name, every table is well formed, and every
    /// table's key column has the type of the database's keys.
    pub open spec fn wf(&self) -> bool {
        &&& table_names(self.table_list()).no_duplicates()
        &&& forall|i: int| 0 <= i < self.table_list().len() ==> table_fits(#[trigger] self.table_list()[i], self.key_type_view())
    }

    /// An empty database whose keys have the type `key_type`.
    pub fn new(key_type: FieldType) -> (d: Database)
        ensures
            d.wf(),
            d.key_type_view() == key_type,
            d.table_list() == Seq::<Table>::empty(),
    {
        let d = Database { key_type, tables: Vec::new() };
        assert(table_names(d.table_list()) =~= seq![]);
        d
    }

    /// The type of the keys.
    pub fn key_type(&self) -> (t: FieldType)
        ensures
            t == self.key_type_view(),
    {
        self.key_type
    }

    /// The position of the table called `table`, if there is one.
    pub(crate) fn position_of(&self, table: &str) -> (r: Option<usize>)
        ensures
            match r {
                Some(i) => i < self.table_list().len() && self.table_list()[i as int].name_view() == table@,
                None => !table_names(self.table_list()).contains(table@),
            },
    {
        let mut i: usize = 0;
        while i < self.tables.len()
            invariant
                i <= self.tables.len(),
                forall|k: int| 0 <= k < i ==> self.tables@[k].name_view() != table@,
            decreases self.tables.len() - i,
        {
            if str_eq(self.tables[i].get_name(), table) {
                return Some(i);
            }
            i += 1;
        }
        proof {
            if table_names(self.table_list()).contains(table@) {
                let k = choose|k: int| 0 <= k < self.tables.len() && table_names(self.table_list())[k] == table@;
                assert(self.tables@[k].name_view() == table@);
            }
        }
        None
    }

    /// Makes an empty table called `table` with the schema `schema`. A name
    /// that is taken, or a key column of another type than the database's
    /// keys, is an error, and the database is left as it was.
    pub fn add_table(&mut self, table: &str, schema: &Schema) -> (r: Result<(), DbError>)
        requires
            old(self).wf(),
            schema.wf(),
        ensures
            final(self).wf(),
            final(self).key_type_view() == old(self).key_type_view(),
            table_names(old(self).table_list()).contains(table@) ==> (r matches Err(
                DbError::Create(CreateErr::AlreadyExists { table: t }),
            ) && t@ == table@ && final(self).table_list() == old(self).table_list()),
            !table_names(old(self).table_list()).contains(table@) && schema.columns()[schema.key_name()]
                != old(self).key_type_view() ==> (r matches Err(
                DbError::Insert(InsertErr::InvalidKeyType { got, expected }),
            ) && got@ == type_word(schema.columns()[schema.key_name()]) && expected@ == type_word(
                old(self).key_type_view(),
            ) && final(self).table_list() == old(self).table_list()),
            !table_names(old(self).table_list()).contains(table@) && schema.columns()[schema.key_name()]
                == old(self).key_type_view() ==> (r is Ok && final(self).table_list().len() == old(
                self,
            ).table_list().len() + 1 && final(self).table_list().drop_last() == old(self).table_list() && ({
                let t = final(self).table_list().last();
                &&& t.name_view() == table@
                &&& t.schema_view().columns() == schema.columns()
                &&& t.schema_view().key_name() == schema.key_name()
                &&& t.rows().len() == 0
            })),
    {
        if let Some(i) = self.position_of(table) {
            assert(table_names(self.table_list())[i as int] == table@);
            return Err(DbError::Create(CreateErr::AlreadyExists { table: text_of(table) }));
        }
        let key_type = match schema.get_key_type() {
            Some(t) => *t,
            None => {
                return Err(DbError::Create(CreateErr::AlreadyExists { table: text_of(table) }));
            },
        };
        if key_type != self.key_type {
            return Err(DbError::Insert(InsertErr::InvalidKeyType { got: key_type.to_string(), expected: self.key_type.to_string() }));
        }
        let ghost before = self.tables@;
        let t = Table::from_schema(table, schema);
        let ghost tg = t;
        self.tables.push(t);
        assert(self.tables@[before.len() as int] == tg);
        assert(self.tables@.drop_last() =~= before);
        proof {
            let names = table_names(self.tables@);
            assert(names =~= table_names(before).push(table@));
            assert forall|a: int, b: int| 0 <= a < names.len() && 0 <= b < names.len() && a != b implies names[a] != names[b] by {
                if a < before.len() && b < before.len() {
                    assert(table_names(before)[a] != table_names(before)[b]);
                } else if a < before.len() {
                    assert(table_names(before)[a] == names[a]);
                } else if b < before.len() {
                    assert(table_names(before)[b] == names[b]);
                }
            }
            assert(names.no_duplicates());
            assert(table_names(self.table_list()).no_duplicates());
            assert forall|i: int| 0 <= i < self.table_list().len() implies table_fits(#[trigger] self.table_list()[i], self.key_type_view()) by {
                if i < before.len() {
                    assert(self.tables@[i] == before[i]);
                    assert(before[i] == old(self).table_list()[i]);
                } else {
                    assert(self.tables@[i] == tg);
                }
            }
        }
        Ok(())
    }

    /// The table called `table`, to change; a name no table has is an
    /// error.
    pub fn get_table_mut(&mut self, table: &str) -> (r: Result<&mut Table, DbError>)
        ensures
            table_names(old(self).table_list()).contains(table@) <==> r is Ok,
            !table_names(old(self).table_list()).contains(table@) ==> (r matches Err(
                DbError::Insert(InsertErr::TableNotFound(t)),
            ) && t@ == table@ && final(self).table_list() == old(self).table_list()),
            r matches Ok(t) ==> exists|i: int|
                0 <= i < old(self).table_list().len() && old(self).table_list()[i].name_view() == table@ && *t
                    == old(self).table_list()[i] && final(self).table_list() == old(self).table_list().update(
                    i,
                    *final(t),
                ),
            final(self).key_type_view() == old(self).key_type_view(),
    {
        match self.position_of(table) {
            Some(i) => {
                assert(table_names(self.table_list())[i as int] == table@);
                Ok(&mut self.tables[i])
            },
            None => Err(DbError::Insert(InsertErr::TableNotFound(text_of(table)))),
        }
    }

    /// The tables.
    pub(crate) fn tables_ref(&self) -> (r: &Vec<Table>)
        ensures
            r@ == self.table_list(),
    {
        &self.tables
    }

    /// Adds the row `record` under `key` to the table at position `i`.
    pub(crate) fn insert_at(&mut self, i: usize, key: &Key, record: Record) -> (r: Result<(), DbError>)
        requires
            old(self).wf(),
            i < old(self).table_list().len(),
        ensures
            final(self).wf(),
            ({
                let t = old(self).table_list()[i as int];
                if t.row_map().contains_key(key@) {
                    r matches Err(DbError::Insert(InsertErr::KeyUsed { table, key: k })) && table@ == t.name_view()
                        && k@ == key_text(key@) && same_tables(*old(self), *final(self))
                } else {
                    r is Ok && rows_changed(*old(self), *final(self), i as int, t.row_map().insert(key@, record@))
                }
            }),
    {
        let ghost before = self.tables@;
        let mut t = self.tables.remove(i);
        assert(t == before[i as int]);
        assert(table_fits(before[i as int], self.key_type));
        let r = t.insert(key, record);
        self.tables.insert(i, t);
        proof {
            assert forall|j: int| 0 <= j < before.len() implies (#[trigger] self.tables@[j]).name_view() == before[j].name_view()
                && self.tables@[j].schema_view() == before[j].schema_view()
                && (j != i || r.is_err() ==> self.tables@[j].rows() == before[j].rows()) by {
                if j != i {
                    assert(self.tables@[j] == before[j]);
                }
            }
            assert(table_names(self.tables@) =~= table_names(before));
            assert forall|j: int| 0 <= j < self.tables@.len() implies table_fits(#[trigger] self.tables@[j], self.key_type) by {
                if j != i {
                    assert(self.tables@[j] == before[j]);
                    assert(table_fits(before[j], self.key_type));
                }
            }
        }
        r
    }

    /// Removes the row with the key `key` from the table at position `i`.
    pub(crate) fn delete_at(&mut self, i: usize, key: &Key) -> (r: Result<(), DbError>)
        requires
            old(self).wf(),
            i < old(self).table_list().len(),
        ensures
            final(self).wf(),
            ({
                let t = old(self).table_list()[i as int];
                if t.row_map().contains_key(key@) {
                    r is Ok && rows_changed(*old(self), *final(self), i as int, t.row_map().remove(key@))
                } else {
                    r matches Err(DbError::Delete(DeleteErr::InvalidKey { table, key: k })) && table@ == t.name_view()
                        && k@ == key_text(key@) && same_tables(*old(self), *final(self))
                }
            }),
    {
        let ghost before = self.tables@;
        let mut t = self.tables.remove(i);
        assert(t == before[i as int]);
        assert(table_fits(before[i as int], self.key_type));
        let r = t.delete(key);
        self.tables.insert(i, t);
        proof {
            assert forall|j: int| 0 <= j < before.len() implies (#[trigger] self.tables@[j]).name_view() == before[j].name_view()
                && self.tables@[j].schema_view() == before[j].schema_view()
                && (j != i || r.is_err() ==> self.tables@[j].rows() == before[j].rows()) by {
                if j != i {
                    assert(self.tables@[j] == before[j]);
                }
            }
            assert(table_names(self.tables@) =~= table_names(before));
            assert forall|j: int| 0 <= j < self.tables@.len() implies table_fits(#[trigger] self.tables@[j], self.key_type) by {
                if j != i {
                    assert(self.tables@[j] == before[j]);
                    assert(table_fits(before[j], self.key_type));
                }
            }
        }
        r
    }
}

} // verus!
