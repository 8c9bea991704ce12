//! Running a command line against the database: the rows it adds or
//! removes, the tables it makes, and what is left for the caller to do.
use vstd::prelude::*;
use crate::db::commands::{
    columns_view, command_spec, create_spec, delete_spec, fails_as, file_spec, insert_spec, literal_spec,
    named_values, pairs_view, parse_command_name, parse_create, parse_delete, parse_file_name, parse_insert,
    parse_literal, parse_record, parse_select, parse_where, record_spec, select_spec, where_spec, conds_view, CommandKind,
    CondOp, Fail, Literal, LiteralValue,
};
use crate::db::errors::{CreateErr, DbError, InsertErr, ParseErr};
use crate::db::schema::{type_word, view_map, FieldType, Schema};
use vstd::string::StringExecFns;
use crate::db::table::{
    field_value, key_of_value, key_text, rows_changed, same_tables, table_fits, table_names, Database, Key,
    KeyView, Record, Table,
};
use crate::db::tokens::{text_of, token_list, token_stream};

verus! {

/// Why a command failed: it could not be read, or the database refused it.
#[derive(Debug)]
pub enum CommandError {
    Parse(ParseErr),
    Database(DbError),
}

/// The position of the table called `name`, if there is one.
pub open spec fn table_named(tables: Seq<Table>, name: Seq<char>) -> Option<int> {
    if exists|i: int| 0 <= i < tables.len() && tables[i].name_view() == name {
        Some(choose|i: int| 0 <= i < tables.len() && tables[i].name_view() == name)
    } else {
        None
    }
}

/// The key of a row: the value of its key column, when that is a key.
pub open spec fn row_key(row: Seq<(Seq<char>, LiteralValue)>, key_name: Seq<char>) -> Option<KeyView> {
    match field_value(row, key_name) {
        Some(v) => key_of_value(v),
        None => None,
    }
}

/// What adding the row given by `pairs` to the table `table` does.
pub open spec fn insert_outcome(
    before: Database,
    after: Database,
    table: Seq<char>,
    pairs: Seq<(Seq<char>, Seq<char>)>,
    r: Result<(), CommandError>,
) -> bool {
    match table_named(before.table_list(), table) {
        None => r matches Err(CommandError::Parse(ParseErr::Database(DbError::Insert(InsertErr::TableNotFound(t)))))
            && t@ == table && same_tables(before, after),
        Some(i) => {
            let t = before.table_list()[i];
            match record_spec(pairs, columns_view(t.schema_view().column_list()), t.schema_view().columns(), table) {
                Err(f) => r matches Err(CommandError::Parse(e)) && fails_as(e, f) && same_tables(before, after),
                Ok(row) => match row_key(row, t.schema_view().key_name()) {
                    None => r matches Err(CommandError::Parse(ParseErr::Unreachable)) && same_tables(before, after),
                    Some(k) => if t.row_map().contains_key(k) {
                        r matches Err(CommandError::Database(DbError::Insert(InsertErr::KeyUsed { table: n, key })))
                            && n@ == table && key@ == key_text(k) && same_tables(before, after)
                    } else {
                        r is Ok && rows_changed(before, after, i, t.row_map().insert(k, row))
                    },
                },
            }
        },
    }
}

/// What removing the row whose key is written `key` from the table
/// `table` does.
pub open spec fn delete_outcome(
    before: Database,
    after: Database,
    table: Seq<char>,
    key: Seq<char>,
    r: Result<(), CommandError>,
) -> bool {
    match table_named(before.table_list(), table) {
        None => r matches Err(CommandError::Parse(ParseErr::Database(DbError::Insert(InsertErr::TableNotFound(t)))))
            && t@ == table && same_tables(before, after),
        Some(i) => {
            let t = before.table_list()[i];
            let kt = t.schema_view().columns()[t.schema_view().key_name()];
            match literal_spec(key, kt) {
                Err(f) => r matches Err(CommandError::Parse(e)) && fails_as(e, f) && same_tables(before, after),
                Ok(v) => match key_of_value(v) {
                    None => r matches Err(CommandError::Parse(ParseErr::Unreachable)) && same_tables(before, after),
                    Some(k) => if t.row_map().contains_key(k) {
                        r is Ok && rows_changed(before, after, i, t.row_map().remove(k))
                    } else {
                        r matches Err(
                            CommandError::Database(DbError::Delete(crate::db::errors::DeleteErr::InvalidKey { table: n, key: kx })),
                        ) && n@ == table && kx@ == key_text(k) && same_tables(before, after)
                    },
                },
            }
        },
    }
}

/// A database has the same tables as itself.
proof fn lemma_same_tables_refl(d: Database)
    ensures
        same_tables(d, d),
{
}

impl Database {
    /// With distinct names, the table found is the one `table_named` names.
    proof fn lemma_named(&self, i: int, name: Seq<char>)
        requires
            self.wf(),
            0 <= i < self.table_list().len(),
            self.table_list()[i].name_view() == name,
        ensures
            table_named(self.table_list(), name) == Some(i),
    {
        let j = choose|j: int| 0 <= j < self.table_list().len() && self.table_list()[j].name_view() == name;
        if j != i {
            assert(table_names(self.table_list())[i] == table_names(self.table_list())[j]);
        }
    }

    /// The table called `table`.
    pub fn get_table(&self, table: &str) -> (r: Result<&Table, DbError>)
        requires
            self.wf(),
        ensures
            match table_named(self.table_list(), table@) {
                Some(i) => r matches Ok(t) && *t == self.table_list()[i],
                None => r matches Err(DbError::Insert(InsertErr::TableNotFound(t))) && t@ == table@,
            },
    {
        match self.find(table) {
            Some(i) => {
                let tables = self.tables_ref();
                let t = &tables[i];
                assert(*t == self.table_list()[i as int]);
                Ok(t)
            },
            None => Err(DbError::Insert(InsertErr::TableNotFound(text_of(table)))),
        }
    }

    /// The position of the table called `table`.
    fn find(&self, table: &str) -> (r: Option<usize>)
        requires
            self.wf(),
        ensures
            r matches Some(i) ==> i < self.table_list().len() && table_named(self.table_list(), table@) == Some(i as int),
            r is None <==> table_named(self.table_list(), table@) is None,
    {
        let r = self.position_of(table);
        proof {
            match r {
                Some(i) => self.lemma_named(i as int, table@),
                None => {
                    if exists|i: int| 0 <= i < self.table_list().len() && self.table_list()[i].name_view() == table@ {
                        let i = choose|i: int| 0 <= i < self.table_list().len() && self.table_list()[i].name_view() == table@;
                        assert(table_names(self.table_list())[i] == table@);
                    }
                },
            }
        }
        r
    }

    /// Adds the row given by `pairs` to the table `table`: the row is read
    /// against the table's columns, and its key must not be in use.
    pub fn insert_row(&mut self, table: &str, pairs: &Vec<(String, String)>) -> (r: Result<(), CommandError>)
        requires
            old(self).wf(),
        ensures
            final(self).wf(),
            insert_outcome(*old(self), *final(self), table@, pairs_view(pairs@), r),
    {
        proof {
            lemma_same_tables_refl(*self);
        }
        let i = match self.find(table) {
            Some(i) => i,
            None => {
                return Err(CommandError::Parse(ParseErr::Database(DbError::Insert(InsertErr::TableNotFound(text_of(table))))));
            },
        };
        proof {
            assert(table_fits(self.table_list()[i as int], self.key_type_view()));
        }
        let fields = match parse_record(pairs, self.tables_ref()[i].get_schema(), table) {
            Ok(v) => v,
            Err(e) => {
                return Err(CommandError::Parse(e));
            },
        };
        let record = Record::from_map(fields);
        let key = match record.get_key(self.tables_ref()[i].get_schema()) {
            Some(k) => k,
            None => {
                return Err(CommandError::Parse(ParseErr::Unreachable));
            },
        };
        match self.insert_at(i, &key, record) {
            Ok(()) => Ok(()),
            Err(e) => Err(CommandError::Database(e)),
        }
    }

    /// Removes the row whose key is written `key` from the table `table`:
    /// the key is read as the type of the table's key column, and a row
    /// must have it.
    pub fn delete_row(&mut self, table: &str, key: &str) -> (r: Result<(), CommandError>)
        requires
            old(self).wf(),
        ensures
            final(self).wf(),
            delete_outcome(*old(self), *final(self), table@, key@, r),
    {
        proof {
            lemma_same_tables_refl(*self);
        }
        let i = match self.find(table) {
            Some(i) => i,
            None => {
                return Err(CommandError::Parse(ParseErr::Database(DbError::Insert(InsertErr::TableNotFound(text_of(table))))));
            },
        };
        proof {
            assert(table_fits(self.table_list()[i as int], self.key_type_view()));
        }
        let kt = match self.tables_ref()[i].get_schema().get_key_type() {
            Some(t) => *t,
            None => {
                return Err(CommandError::Parse(ParseErr::Unreachable));
            },
        };
        let v = match parse_literal(key, kt) {
            Ok(v) => v,
            Err(e) => {
                return Err(CommandError::Parse(e));
            },
        };
        let k = match Key::from_value(&v) {
            Some(k) => k,
            None => {
                return Err(CommandError::Parse(ParseErr::Unreachable));
            },
        };
        match self.delete_at(i, &k) {
            Ok(()) => Ok(()),
            Err(e) => Err(CommandError::Database(e)),
        }
    }
}

/// A `SAVE_AS` command: the file to save the command history to.
pub struct SaveAs {
    pub file: String,
}

/// What a command line comes to, once the database has done its part.
pub enum Step {
    /// The command is done; its message.
    Done(String),
    /// The rows of `table` that meet `conditions` are to be listed, with
    /// the values of `fields`.
    Select { fields: Vec<String>, table: String, conditions: Vec<(String, CondOp, Literal)> },
    /// The commands of the file are to be run.
    ReadFrom(String),
    /// The command history is to be saved.
    SaveAs(SaveAs),
}

/// The message of a `CREATE` command that made the table `name`.
pub open spec fn created_message(name: Seq<char>) -> Seq<char> {
    "Successfuly created '"@ + name + "'."@
}

/// A result with its value forgotten.
pub open spec fn as_unit(r: Result<Step, CommandError>) -> Result<(), CommandError> {
    match r {
        Ok(_) => Ok(()),
        Err(e) => Err(e),
    }
}

/// `r` is a finished command with the message `msg`, or an error.
pub open spec fn done_with(r: Result<Step, CommandError>, msg: Seq<char>) -> bool {
    r matches Ok(s) ==> s matches Step::Done(m) && m@ == msg
}

/// What making the table `name`, with the key `key` and the columns
/// `fields`, does.
pub open spec fn create_outcome(
    before: Database,
    after: Database,
    name: Seq<char>,
    key: Seq<char>,
    fields: Seq<(Seq<char>, FieldType)>,
    r: Result<(), CommandError>,
) -> bool {
    let kt = view_map(fields)[key];
    if table_names(before.table_list()).contains(name) {
        r matches Err(CommandError::Database(DbError::Create(CreateErr::AlreadyExists { table: t }))) && t@ == name
            && same_tables(before, after)
    } else if kt != before.key_type_view() {
        r matches Err(CommandError::Database(DbError::Insert(InsertErr::InvalidKeyType { got, expected })))
            && got@ == type_word(kt) && expected@ == type_word(before.key_type_view()) && same_tables(before, after)
    } else {
        &&& r is Ok
        &&& after.key_type_view() == before.key_type_view()
        &&& after.table_list().drop_last() == before.table_list()
        &&& after.table_list().len() == before.table_list().len() + 1
        &&& after.table_list().last().name_view() == name
        &&& after.table_list().last().schema_view().columns() == view_map(fields)
        &&& after.table_list().last().schema_view().key_name() == key
        &&& after.table_list().last().rows().len() == 0
    }
}

/// What running the command line `line` does: the database `before`
/// becomes `after`, and `r` is the result.
pub open spec fn execute_outcome(before: Database, after: Database, line: Seq<char>, r: Result<Step, CommandError>) -> bool {
    let (c, rest) = command_spec(token_list(line));
    let parse_failed = |f: Fail| r matches Err(CommandError::Parse(e)) && fails_as(e, f) && same_tables(before, after);
    match c {
        Err(f) => parse_failed(f),
        Ok(CommandKind::Create) => match create_spec(rest).0 {
            Err(f) => parse_failed(f),
            Ok((name, key, fields)) => create_outcome(before, after, name, key, fields, as_unit(r)) && done_with(
                r,
                created_message(name),
            ),
        },
        Ok(CommandKind::Insert) => match insert_spec(rest).0 {
            Err(f) => parse_failed(f),
            Ok((pairs, name)) => insert_outcome(before, after, name, pairs, as_unit(r)) && done_with(
                r,
                "Successfuly inserted."@,
            ),
        },
        Ok(CommandKind::Delete) => match delete_spec(rest).0 {
            Err(f) => parse_failed(f),
            Ok((key, name)) => delete_outcome(before, after, name, key, as_unit(r)) && done_with(
                r,
                "Successfuly deleted."@,
            ),
        },
        Ok(CommandKind::Select) => {
            let (s, rest2) = select_spec(rest);
            match s {
                Err(f) => parse_failed(f),
                Ok((fields, name)) => match table_named(before.table_list(), name) {
                    None => r matches Err(
                        CommandError::Parse(ParseErr::Database(DbError::Insert(InsertErr::TableNotFound(t)))),
                    ) && t@ == name && same_tables(before, after),
                    Some(i) => match where_spec(rest2, before.table_list()[i].schema_view().columns(), name).0 {
                        Err(f) => parse_failed(f),
                        Ok(conds) => r matches Ok(Step::Select { fields: fv, table: tv, conditions: cv })
                            && fv@.map_values(|x: String| x@) == fields && tv@ == name && conds_view(cv@) == conds
                            && same_tables(before, after),
                    },
                },
            }
        },
        Ok(CommandKind::ReadFrom) => match file_spec(rest).0 {
            Err(f) => parse_failed(f),
            Ok(n) => r matches Ok(Step::ReadFrom(x)) && x@ == n && same_tables(before, after),
        },
        Ok(CommandKind::SaveAs) => match file_spec(rest).0 {
            Err(f) => parse_failed(f),
            Ok(n) => r matches Ok(Step::SaveAs(x)) && x.file@ == n && same_tables(before, after),
        },
    }
}

/// Runs the command line `line` against the database: tables are made and
/// rows added or removed here; a `SELECT`, `READ_FROM` or `SAVE_AS` is
/// read and handed back to the caller.
pub fn execute(line: &str, db: &mut Database) -> (r: Result<Step, CommandError>)
    requires
        old(db).wf(),
    ensures
        final(db).wf(),
        execute_outcome(*old(db), *final(db), line@, r),
{
    proof {
        lemma_same_tables_refl(*db);
    }
    let mut tokens = token_stream(line);
    let kind = match parse_command_name(&mut tokens) {
        Ok(k) => k,
        Err(e) => {
            return Err(CommandError::Parse(e));
        },
    };
    match kind {
        CommandKind::Create => {
            let (name, schema) = match parse_create(&mut tokens) {
                Ok(p) => p,
                Err(e) => {
                    return Err(CommandError::Parse(e));
                },
            };
            proof {
                schema.lemma_columns();
            }
            match db.add_table(name.as_str(), &schema) {
                Ok(()) => {
                    let mut msg = String::from_str("Successfuly created '");
                    msg.append(name.as_str());
                    msg.append("'.");
                    Ok(Step::Done(msg))
                },
                Err(e) => Err(CommandError::Database(e)),
            }
        },
        CommandKind::Insert => {
            let (pairs, name) = match parse_insert(&mut tokens) {
                Ok(p) => p,
                Err(e) => {
                    return Err(CommandError::Parse(e));
                },
            };
            match db.insert_row(name.as_str(), &pairs) {
                Ok(()) => Ok(Step::Done(String::from_str("Successfuly inserted."))),
                Err(e) => Err(e),
            }
        },
        CommandKind::Delete => {
            let (key, name) = match parse_delete(&mut tokens) {
                Ok(p) => p,
                Err(e) => {
                    return Err(CommandError::Parse(e));
                },
            };
            match db.delete_row(name.as_str(), key.as_str()) {
                Ok(()) => Ok(Step::Done(String::from_str("Successfuly deleted."))),
                Err(e) => Err(e),
            }
        },
        CommandKind::Select => {
            let (fields, name) = match parse_select(&mut tokens) {
                Ok(p) => p,
                Err(e) => {
                    return Err(CommandError::Parse(e));
                },
            };
            let table = match db.get_table(name.as_str()) {
                Ok(t) => t,
                Err(e) => {
                    return Err(CommandError::Parse(ParseErr::Database(e)));
                },
            };
            proof {
                let i = table_named(db.table_list(), name@).unwrap();
                assert(table_fits(db.table_list()[i], db.key_type_view()));
            }
            let conditions = match parse_where(&mut tokens, table.get_schema(), name.as_str()) {
                Ok(c) => c,
                Err(e) => {
                    return Err(CommandError::Parse(e));
                },
            };
            Ok(Step::Select { fields, table: name, conditions })
        },
        CommandKind::ReadFrom => match parse_file_name(&mut tokens) {
            Ok(f) => Ok(Step::ReadFrom(f)),
            Err(e) => Err(CommandError::Parse(e)),
        },
        CommandKind::SaveAs => match parse_file_name(&mut tokens) {
            Ok(f) => Ok(Step::SaveAs(SaveAs { file: f })),
            Err(e) => Err(CommandError::Parse(e)),
        },
    }
}

} // verus!
