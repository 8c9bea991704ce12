use vstd::prelude::*;
use vstd::string::StringExecFns;
use crate::db::errors::ParseErr;
use crate::db::tokens::{lower, to_lower};
use crate::text::str_eq;

verus! {

/// The type of a column.
#[derive(Clone, Copy, Debug, PartialEq, Eq, Structural)]
pub enum FieldType {
    Bool,
    String,
    Int,
    Float,
}

/// The name of a type in the command language.
pub open spec fn type_word(t: FieldType) -> Seq<char> {
    match t {
        FieldType::Bool => seq!['b', 'o', 'o', 'l'],
        FieldType::String => seq!['s', 't', 'r', 'i', 'n', 'g'],
        FieldType::Int => seq!['i', 'n', 't'],
        FieldType::Float => seq!['f', 'l', 'o', 'a', 't'],
    }
}

/// The type that a name stands for, ignoring ASCII case.
pub open spec fn type_of_word(s: Seq<char>) -> Option<FieldType> {
    let l = lower(s);
    if l == type_word(FieldType::Bool) {
        Some(FieldType::Bool)
    } else if l == type_word(FieldType::String) {
        Some(FieldType::String)
    } else if l == type_word(FieldType::Int) {
        Some(FieldType::Int)
    } else if l == type_word(FieldType::Float) {
        Some(FieldType::Float)
    } else {
        None
    }
}

impl FieldType {
    /// The name of the type: `bool`, `string`, `int` or `float`.
    pub fn to_string(&self) -> (s: String)
        ensures
            s@ == type_word(*self),
    {
        proof {
            reveal_strlit("bool");
            reveal_strlit("string");
            reveal_strlit("int");
            reveal_strlit("float");
        }
        match self {
            FieldType::Bool => String::from_str("bool"),
            FieldType::String => String::from_str("string"),
            FieldType::Int => String::from_str("int"),
            FieldType::Float => String::from_str("float"),
        }
    }

    /// Reads a type name, ignoring ASCII case; an unknown name is reported in small letters.
    pub fn parse_from(string: &str) -> (r: Result<Self, ParseErr>)
        ensures
            type_of_word(string@) matches Some(t) ==> r == Ok::<FieldType, ParseErr>(t),
            type_of_word(string@) is None ==> (r matches Err(ParseErr::InvalidType(s)) && s@ == lower(string@)),
    {
        let l = to_lower(string);
        proof {
            reveal_strlit("bool");
            reveal_strlit("string");
            reveal_strlit("int");
            reveal_strlit("float");
        }
        assert("bool"@ =~= type_word(FieldType::Bool));
        assert("string"@ =~= type_word(FieldType::String));
        assert("int"@ =~= type_word(FieldType::Int));
        assert("float"@ =~= type_word(FieldType::Float));
        if str_eq(l.as_str(), "bool") {
            Ok(FieldType::Bool)
        } else if str_eq(l.as_str(), "string") {
            Ok(FieldType::String)
        } else if str_eq(l.as_str(), "int") {
            Ok(FieldType::Int)
        } else if str_eq(l.as_str(), "float") {
            Ok(FieldType::Float)
        } else {
            Err(ParseErr::InvalidType(l))
        }
    }
}

pub open spec fn names_of(fields: Seq<(String, FieldType)>) -> Seq<Seq<char>> {
    fields.map_values(|f: (String, FieldType)| f.0@)
}

/// The columns as a map from name to type.
pub open spec fn field_map(fields: Seq<(String, FieldType)>) -> Map<Seq<char>, FieldType>
    decreases fields.len(),
{
    if fields.len() == 0 {
        Map::empty()
    } else {
        field_map(fields.drop_last()).insert(fields.last().0@, fields.last().1)
    }
}

/// Columns given with their names as character sequences, by name.
pub open spec fn view_map(fields: Seq<(Seq<char>, FieldType)>) -> Map<Seq<char>, FieldType>
    decreases fields.len(),
{
    if fields.len() == 0 {
        Map::empty()
    } else {
        view_map(fields.drop_last()).insert(fields.last().0, fields.last().1)
    }
}

/// The map of the columns depends only on their names as character
/// sequences.
pub proof fn lemma_view_map(fields: Seq<(String, FieldType)>)
    ensures
        field_map(fields) == view_map(fields.map_values(|p: (String, FieldType)| (p.0@, p.1))),
    decreases fields.len(),
{
    if fields.len() > 0 {
        lemma_view_map(fields.drop_last());
        assert(fields.drop_last().map_values(|p: (String, FieldType)| (p.0@, p.1)) =~= fields.map_values(
            |p: (String, FieldType)| (p.0@, p.1),
        ).drop_last());
    }
}

/// The column names and types of a table, with the name of its key column.
pub struct Schema {
    fields: Vec<(String, FieldType)>,
    key: String,
}

impl Schema {
    /// No column name appears twice, and the key is among them.
    pub closed spec fn wf(&self) -> bool {
        &&& names_of(self.fields@).no_duplicates()
        &&& names_of(self.fields@).contains(self.key@)
    }

    /// The columns, by name.
    pub closed spec fn columns(&self) -> Map<Seq<char>, FieldType> {
        field_map(self.fields@)
    }

    pub closed spec fn key_name(&self) -> Seq<char> {
        self.key@
    }

    pub closed spec fn column_list(&self) -> Seq<(String, FieldType)> {
        self.fields@
    }

    /// The columns by name are the list of columns, by name.
    pub proof fn lemma_columns(&self)
        ensures
            self.columns() == view_map(self.column_list().map_values(|p: (String, FieldType)| (p.0@, p.1))),
    {
        lemma_view_map(self.fields@);
    }

    /// A schema of the given columns with `key` as its key column; there is
    /// none when no column is called `key` or a name is used twice.
    pub fn from_map(map: Vec<(String, FieldType)>, key: &str) -> (r: Option<Self>)
        ensures
            r is Some <==> (names_of(map@).no_duplicates() && names_of(map@).contains(key@)),
            r matches Some(s) ==> s.wf() && s.columns() == field_map(map@) && s.key_name() == key@
                && s.column_list() == map@,
    {
        let mut k: usize = 0;
        let mut has_key = false;
        while k < map.len()
            invariant
                k <= map.len(),
                names_of(map@.take(k as int)).no_duplicates(),
                has_key == names_of(map@.take(k as int)).contains(key@),
            decreases map.len() - k,
        {
            let mut m: usize = 0;
            while m < k
                invariant
                    m <= k < map.len(),
                    forall|t: int| 0 <= t < m ==> map@[t].0@ != map@[k as int].0@,
                decreases k - m,
            {
                if map[m].0 == map[k].0 {
                    proof {
                        assert(names_of(map@)[m as int] == names_of(map@)[k as int]);
                    }
                    return None;
                }
                m += 1;
            }
            if str_eq(map[k].0.as_str(), key) {
                has_key = true;
            }
            proof {
                let before = names_of(map@.take(k as int));
                let after = names_of(map@.take(k + 1));
                assert(after =~= before.push(map@[k as int].0@));
                assert forall|a: int, b: int| 0 <= a < after.len() && 0 <= b < after.len() && a != b implies after[a] != after[b] by {
                    if a < k && b < k {
                        assert(before[a] != before[b]);
                    }
                }
                if !has_key {
                    assert forall|t: int| 0 <= t < after.len() implies after[t] != key@ by {
                        if t < k {
                            assert(after[t] == before[t]);
                        }
                    }
                } else if map@[k as int].0@ == key@ {
                    assert(after[k as int] == key@);
                } else {
                    let t = choose|t: int| 0 <= t < before.len() && before[t] == key@;
                    assert(after[t] == key@);
                }
            }
            k += 1;
        }
        assert(map@.take(map.len() as int) =~= map@);
        if !has_key {
            return None;
        }
        Some(Schema { fields: map, key: String::from_str(key) })
    }

    pub fn get_key(&self) -> (r: &str)
        ensures
            r@ == self.key_name(),
    {
        self.key.as_str()
    }

    /// The type of the key column.
    pub fn get_key_type(&self) -> (r: Option<&FieldType>)
        requires
            self.wf(),
        ensures
            r matches Some(t) && *t == self.columns()[self.key_name()],
    {
        let mut k: usize = 0;
        while k < self.fields.len()
            invariant
                k <= self.fields.len(),
                names_of(self.fields@).no_duplicates(),
                names_of(self.fields@).contains(self.key@),
                forall|t: int| 0 <= t < k ==> self.fields@[t].0@ != self.key@,
            decreases self.fields.len() - k,
        {
            if str_eq(self.fields[k].0.as_str(), self.key.as_str()) {
                proof {
                    lemma_field_map_at(self.fields@, k as int);
                }
                return Some(&self.fields[k].1);
            }
            k += 1;
        }
        proof {
            let t = choose|t: int| 0 <= t < names_of(self.fields@).len() && names_of(self.fields@)[t] == self.key@;
            assert(self.fields@[t].0@ == self.key@);
        }
        None
    }

    /// The type of the column called `name`, if there is one.
    pub fn field_type(&self, name: &str) -> (r: Option<&FieldType>)
        requires
            self.wf(),
        ensures
            self.columns().contains_key(name@) <==> r is Some,
            r matches Some(t) ==> *t == self.columns()[name@],
    {
        let mut k: usize = 0;
        while k < self.fields.len()
            invariant
                k <= self.fields.len(),
                names_of(self.fields@).no_duplicates(),
                forall|t: int| 0 <= t < k ==> self.fields@[t].0@ != name@,
            decreases self.fields.len() - k,
        {
            if str_eq(self.fields[k].0.as_str(), name) {
                proof {
                    lemma_field_map_at(self.fields@, k as int);
                }
                return Some(&self.fields[k].1);
            }
            k += 1;
        }
        proof {
            lemma_field_map_dom(self.fields@, name@);
        }
        None
    }

    /// A schema with the same columns and key.
    pub fn duplicate(&self) -> (s: Schema)
        requires
            self.wf(),
        ensures
            s.wf(),
            s.columns() == self.columns(),
            s.key_name() == self.key_name(),
            names_of(s.column_list()) == names_of(self.column_list()),
            s.column_list().map_values(|p: (String, FieldType)| (p.0@, p.1)) == self.column_list().map_values(
                |p: (String, FieldType)| (p.0@, p.1),
            ),
    {
        let mut fields: Vec<(String, FieldType)> = Vec::new();
        let mut k: usize = 0;
        while k < self.fields.len()
            invariant
                k <= self.fields.len(),
                fields.len() == k,
                forall|i: int| 0 <= i < k ==> #[trigger] fields@[i].0@ == self.fields@[i].0@ && fields@[i].1
                    == self.fields@[i].1,
            decreases self.fields.len() - k,
        {
            fields.push((String::from_str(self.fields[k].0.as_str()), self.fields[k].1));
            k += 1;
        }
        let s = Schema { fields, key: String::from_str(self.key.as_str()) };
        assert(names_of(s.fields@) =~= names_of(self.fields@));
        assert(s.fields@.map_values(|p: (String, FieldType)| (p.0@, p.1)) =~= self.fields@.map_values(
            |p: (String, FieldType)| (p.0@, p.1),
        ));
        proof {
            lemma_field_map_views(s.fields@, self.fields@);
        }
        s
    }

    pub fn get_fields(&self) -> (r: &Vec<(String, FieldType)>)
        ensures
            r@ == self.column_list(),
    {
        &self.fields
    }
}

/// The map of the columns holds each name's type from its only entry.
proof fn lemma_field_map_at(fields: Seq<(String, FieldType)>, k: int)
    requires
        0 <= k < fields.len(),
        names_of(fields).no_duplicates(),
    ensures
        field_map(fields).contains_key(fields[k].0@),
        field_map(fields)[fields[k].0@] == fields[k].1,
    decreases fields.len(),
{
    let init = fields.drop_last();
    if k < fields.len() - 1 {
        assert(names_of(init) =~= names_of(fields).drop_last());
        lemma_field_map_at(init, k);
        assert(names_of(fields)[k] != names_of(fields)[fields.len() - 1]);
    }
}

proof fn lemma_field_map_dom(fields: Seq<(String, FieldType)>, name: Seq<char>)
    ensures
        field_map(fields).contains_key(name) <==> exists|t: int| 0 <= t < fields.len() && fields[t].0@ == name,
    decreases fields.len(),
{
    if fields.len() > 0 {
        let init = fields.drop_last();
        lemma_field_map_dom(init, name);
        if field_map(fields).contains_key(name) && fields.last().0@ != name {
            let t = choose|t: int| 0 <= t < init.len() && init[t].0@ == name;
            assert(fields[t].0@ == name);
        }
        if exists|t: int| 0 <= t < fields.len() && fields[t].0@ == name {
            let t = choose|t: int| 0 <= t < fields.len() && fields[t].0@ == name;
            if t < fields.len() - 1 {
                assert(init[t].0@ == name);
            }
        }
    }
}

/// The map of the columns depends only on their names and types.
proof fn lemma_field_map_views(a: Seq<(String, FieldType)>, b: Seq<(String, FieldType)>)
    requires
        a.len() == b.len(),
        forall|i: int| 0 <= i < a.len() ==> #[trigger] a[i].0@ == b[i].0@ && a[i].1 == b[i].1,
    ensures
        field_map(a) == field_map(b),
    decreases a.len(),
{
    if a.len() > 0 {
        assert(a[a.len() - 1].0@ == b[b.len() - 1].0@);
        lemma_field_map_views(a.drop_last(), b.drop_last());
    }
}

} // verus!
