use rust_labs::db::commands::{
    parse_bool, parse_command_name, parse_create, parse_delete, parse_file_name, parse_insert, parse_int,
    parse_literal, parse_operator, parse_record, parse_select, parse_string_literal, parse_where, CommandKind,
    CondOp, Literal,
};
use rust_labs::db::errors::{CreateErr, DbError, DeleteErr, InsertErr, ParseErr};
use rust_labs::db::run::{execute, CommandError, Step};
use rust_labs::db::schema::{FieldType, Schema};
use rust_labs::db::table::{Database, Key, Record, Table};
use rust_labs::db::select::{check_fields, compare, holds, project, record_passes, select_rows, Order, SelectError};
use rust_labs::db::tokens::token_stream;

fn pope_schema() -> Schema {
    let fields = vec![
        ("id".to_string(), FieldType::Int),
        ("name".to_string(), FieldType::String),
        ("likes_kremówki".to_string(), FieldType::Bool),
    ];
    Schema::from_map(fields, "id").unwrap()
}

#[test]
fn test_table_insert_unique() {
    let schema = pope_schema();
    let mut table = Table::from_schema("Pope_table", &schema);

    let record1 = Record::from_map(vec![
        ("id".to_string(), Literal::Int(1)),
        ("name".to_string(), Literal::Str("John Paul II".to_string())),
        ("likes_kremówki".to_string(), Literal::Bool(true)),
    ]);
    let res1 = table.insert(&Key::Int(1), record1);
    assert!(matches!(res1, Ok(_)));

    let record2 = Record::from_map(vec![
        ("id".to_string(), Literal::Int(1)),
        ("name".to_string(), Literal::Str("Leon XIV".to_string())),
        ("likes_kremówki".to_string(), Literal::Bool(false)),
    ]);
    let res2 = table.insert(&Key::Int(1), record2);
    assert!(matches!(res2, Err(DbError::Insert(InsertErr::KeyUsed { .. }))));
}

#[test]
fn test_database_key_type_mismatch() {
    let mut db = Database::new(FieldType::String);
    let fields = vec![
        ("id".to_string(), FieldType::Int),
        ("some_column_idk_what_to_name_it_really".to_string(), FieldType::String),
    ];
    let bad_schema = Schema::from_map(fields, "id").unwrap();

    let result = db.add_table("funny_table", &bad_schema);

    assert!(matches!(result, Err(DbError::Insert(InsertErr::InvalidKeyType { .. }))));
}

#[test]
fn literals_read_by_type() {
    assert!(matches!(parse_bool("TRUE"), Ok(true)));
    assert!(matches!(parse_bool("false"), Ok(false)));
    match parse_bool("yes") {
        Err(ParseErr::InvalidLiteral { literal, typ }) => {
            assert_eq!(literal, "yes");
            assert_eq!(typ, "bool");
        },
        other => panic!("unexpected {:?}", other),
    }
    assert_eq!(parse_string_literal("\"abc\"").unwrap(), "abc");
    assert_eq!(parse_string_literal("\"\"").unwrap(), "");
    assert!(matches!(parse_string_literal("\"a\"b\""), Err(ParseErr::InvalidLiteral { .. })));
    assert!(matches!(parse_string_literal("\""), Err(ParseErr::InvalidLiteral { .. })));
    assert!(matches!(parse_string_literal("abc"), Err(ParseErr::InvalidLiteral { .. })));
}

#[test]
fn integers_read_as_from_str_does() {
    assert_eq!(parse_int("42").unwrap(), 42);
    assert_eq!(parse_int("-17").unwrap(), -17);
    assert_eq!(parse_int("+8").unwrap(), 8);
    assert_eq!(parse_int("9223372036854775807").unwrap(), i64::MAX);
    assert_eq!(parse_int("-9223372036854775808").unwrap(), i64::MIN);
    for bad in ["", "-", "+", "9223372036854775808", "-9223372036854775809", "1a", "1.5", " 1", "--1"] {
        assert_eq!(parse_int(bad).is_err(), bad.parse::<i64>().is_err(), "{}", bad);
        match parse_int(bad) {
            Err(ParseErr::InvalidLiteral { literal, typ }) => {
                assert_eq!(literal, bad);
                assert_eq!(typ, "int");
            },
            other => panic!("unexpected {:?}", other),
        }
    }
    for good in ["0", "007", "-0", "123456789012"] {
        assert_eq!(parse_int(good).unwrap(), good.parse::<i64>().unwrap());
    }
}

#[test]
fn literal_follows_its_column_type() {
    assert!(matches!(parse_literal("12", FieldType::Int), Ok(Literal::Int(12))));
    assert!(matches!(parse_literal("true", FieldType::Bool), Ok(Literal::Bool(true))));
    match parse_literal("1.5", FieldType::Float) {
        Ok(Literal::Float(s)) => assert_eq!(s, "1.5"),
        other => panic!("unexpected {:?}", other),
    }
    match parse_literal("12", FieldType::String) {
        Err(ParseErr::InvalidLiteral { literal, typ }) => {
            assert_eq!(literal, "12");
            assert_eq!(typ, "string");
        },
        other => panic!("unexpected {:?}", other),
    }
}

#[test]
fn command_names_ignore_case() {
    let mut t = token_stream("CrEaTe x");
    assert_eq!(parse_command_name(&mut t).unwrap(), CommandKind::Create);
    let mut t = token_stream("read_from f");
    assert_eq!(parse_command_name(&mut t).unwrap(), CommandKind::ReadFrom);
    let mut t = token_stream("");
    assert!(matches!(parse_command_name(&mut t), Err(ParseErr::Empty)));
    let mut t = token_stream("DROP table");
    match parse_command_name(&mut t) {
        Err(ParseErr::UnknownCommand(s)) => assert_eq!(s, "drop"),
        other => panic!("unexpected {:?}", other),
    }
}

#[test]
fn create_reads_table_key_and_columns() {
    let mut t = token_stream("create cows KEY id fields id: int, name: STRING, milked: bool");
    parse_command_name(&mut t).unwrap();
    let (name, schema) = parse_create(&mut t).unwrap();
    assert_eq!(name, "cows");
    assert_eq!(schema.get_key(), "id");
    assert_eq!(
        schema.get_fields(),
        &vec![("id".to_string(), FieldType::Int), ("name".to_string(), FieldType::String), ("milked".to_string(), FieldType::Bool)]
    );
}

#[test]
fn create_errors() {
    let cases: Vec<(&str, fn(&ParseErr) -> bool)> = vec![
        ("create", |e| matches!(e, ParseErr::MissingToken { prev, missing } if prev == "CREATE" && missing == "<TABLE NAME>")),
        ("create t", |e| matches!(e, ParseErr::MissingToken { prev, missing } if prev == "t" && missing == "KEY")),
        ("create t key", |e| matches!(e, ParseErr::MissingToken { prev, missing } if prev == "KEY" && missing == "<KEY_NAME>")),
        ("create t key id", |e| matches!(e, ParseErr::MissingToken { prev, missing } if prev == "id" && missing == "FIELDS")),
        ("create t key id fields id int", |e| matches!(e, ParseErr::ExpectedToken(s) if s == "<FIELD_NAME>:")),
        ("create t key id fields i.d: int", |e| matches!(e, ParseErr::FieldInvalidChar('.'))),
        ("create t key id fields id:", |e| matches!(e, ParseErr::ExpectedToken(s) if s == "<FIELD_TYPE>")),
        ("create t key id fields id: Number", |e| matches!(e, ParseErr::InvalidType(s) if s == "number")),
        ("create t key id fields id: int, id: bool", |e| matches!(e, ParseErr::FieldExists(s) if s == "id")),
        ("create t key id fields id: int x", |e| matches!(e, ParseErr::WrongToken { expected, got } if expected == "," && got == "x")),
        ("create t key id fields a: int", |e| matches!(e, ParseErr::MissingPrimaryKey(s) if s == "id")),
    ];
    for (line, check) in cases {
        let mut t = token_stream(line);
        parse_command_name(&mut t).unwrap();
        match parse_create(&mut t) {
            Err(e) => assert!(check(&e), "{}: {:?}", line, e),
            Ok(_) => panic!("{} was accepted", line),
        }
    }
}

#[test]
fn insert_reads_pairs_and_table() {
    let mut t = token_stream("insert id=1, name = \"x\" ,ok=true INTO cows");
    parse_command_name(&mut t).unwrap();
    let (pairs, table) = parse_insert(&mut t).unwrap();
    assert_eq!(table, "cows");
    assert_eq!(
        pairs,
        vec![("id".to_string(), "1".to_string()), ("name".to_string(), "\"x\"".to_string()), ("ok".to_string(), "true".to_string())]
    );
    let mut t = token_stream("insert a=1, a=2 into t");
    parse_command_name(&mut t).unwrap();
    assert!(matches!(parse_insert(&mut t), Err(ParseErr::FieldExists(s)) if s == "a"));
    let mut t = token_stream("insert a=1 in t");
    parse_command_name(&mut t).unwrap();
    assert!(matches!(parse_insert(&mut t), Err(ParseErr::MissingToken { prev, missing }) if prev == "<FIELD_VALUE>" && missing == "INTO"));
    let mut t = token_stream("insert a=1 into");
    parse_command_name(&mut t).unwrap();
    assert!(matches!(parse_insert(&mut t), Err(ParseErr::MissingToken { prev, missing }) if prev == "INTO" && missing == "<TABLE_NAME>"));
}

#[test]
fn record_checks_fields_against_schema() {
    let schema = pope_schema();
    let pairs = |v: &[(&str, &str)]| v.iter().map(|(a, b)| (a.to_string(), b.to_string())).collect::<Vec<_>>();
    let good = parse_record(&pairs(&[("name", "\"Leon\""), ("id", "14"), ("likes_kremówki", "false")]), &schema, "popes").unwrap();
    assert_eq!(good.len(), 3);
    assert!(matches!(&good[0], (n, Literal::Str(s)) if n == "name" && s == "Leon"));
    assert!(matches!(&good[1], (n, Literal::Int(14)) if n == "id"));
    assert!(matches!(
        parse_record(&pairs(&[("id", "1"), ("age", "3")]), &schema, "popes"),
        Err(ParseErr::InvalidField { field, table }) if field == "age" && table == "popes"
    ));
    assert!(matches!(
        parse_record(&pairs(&[("id", "1"), ("likes_kremówki", "true")]), &schema, "popes"),
        Err(ParseErr::MissingField { field, table }) if field == "name" && table == "popes"
    ));
    assert!(matches!(
        parse_record(&pairs(&[("id", "one"), ("name", "\"x\""), ("likes_kremówki", "true")]), &schema, "popes"),
        Err(ParseErr::InvalidLiteral { literal, typ }) if literal == "one" && typ == "int"
    ));
}

#[test]
fn delete_select_and_files() {
    let mut t = token_stream("delete 5 from cows");
    parse_command_name(&mut t).unwrap();
    assert_eq!(parse_delete(&mut t).unwrap(), ("5".to_string(), "cows".to_string()));
    let mut t = token_stream("delete 5 cows");
    parse_command_name(&mut t).unwrap();
    assert!(matches!(parse_delete(&mut t), Err(ParseErr::MissingToken { prev, missing }) if prev == "<KEY_VALUE>" && missing == "FROM"));

    let mut t = token_stream("select a, b ,c from cows where a >= 3, b = \"x\"");
    parse_command_name(&mut t).unwrap();
    let (fields, table) = parse_select(&mut t).unwrap();
    assert_eq!(fields, vec!["a".to_string(), "b".to_string(), "c".to_string()]);
    assert_eq!(table, "cows");
    let schema = Schema::from_map(
        vec![("a".to_string(), FieldType::Int), ("b".to_string(), FieldType::String), ("c".to_string(), FieldType::Bool)],
        "a",
    )
    .unwrap();
    let conds = parse_where(&mut t, &schema, "cows").unwrap();
    assert_eq!(conds.len(), 2);
    assert!(matches!(&conds[0], (n, CondOp::GreaterEqual, Literal::Int(3)) if n == "a"));
    assert!(matches!(&conds[1], (n, CondOp::Equals, Literal::Str(s)) if n == "b" && s == "x"));

    let mut t = token_stream("");
    assert_eq!(parse_where(&mut t, &schema, "cows").unwrap().len(), 0);
    let mut t = token_stream("having a = 1");
    assert!(matches!(parse_where(&mut t, &schema, "cows"), Err(ParseErr::MissingToken { prev, missing }) if prev == "<TABLE_NAME>" && missing == "WHERE"));
    let mut t = token_stream("where z = 1");
    assert!(matches!(
        parse_where(&mut t, &schema, "cows"),
        Err(ParseErr::Database(DbError::Insert(InsertErr::InvalidField { table, field }))) if table == "cows" && field == "z"
    ));
    let mut t = token_stream("where a 1");
    assert!(matches!(parse_where(&mut t, &schema, "cows"), Err(ParseErr::ExpectedToken(s)) if s == "<FIELD_NAME>[=, >, <, !=, <=, >=]"));
    let mut t = token_stream("where a = 1, a < 2");
    assert!(matches!(parse_where(&mut t, &schema, "cows"), Err(ParseErr::FieldExists(s)) if s == "a"));

    let mut t = token_stream("save_as out.txt");
    parse_command_name(&mut t).unwrap();
    assert_eq!(parse_file_name(&mut t).unwrap(), "out.txt");
    let mut t = token_stream("read_from");
    parse_command_name(&mut t).unwrap();
    assert!(matches!(parse_file_name(&mut t), Err(ParseErr::MissingToken { prev, missing }) if prev == "READ_FROM" && missing == "<FILE_NAME>"));
    let mut t = token_stream("read_from a b");
    parse_command_name(&mut t).unwrap();
    assert!(matches!(parse_file_name(&mut t), Err(ParseErr::WrongToken { expected, got }) if expected == "<NEWLINE>" && got == "b"));
}

#[test]
fn operators_map_to_conditions() {
    assert_eq!(parse_operator("=").unwrap(), CondOp::Equals);
    assert_eq!(parse_operator("!=").unwrap(), CondOp::NotEquals);
    assert_eq!(parse_operator("<").unwrap(), CondOp::LessThan);
    assert_eq!(parse_operator("<=").unwrap(), CondOp::LessEqual);
    assert_eq!(parse_operator(">").unwrap(), CondOp::Greater);
    assert_eq!(parse_operator(">=").unwrap(), CondOp::GreaterEqual);
    assert!(matches!(parse_operator("=="), Err(ParseErr::UnknownOperator(s)) if s == "=="));
}

#[test]
fn keys_are_kept_in_order() {
    let schema = Schema::from_map(vec![("k".to_string(), FieldType::String)], "k").unwrap();
    let mut table = Table::from_schema("t", &schema);
    for k in ["pear", "apple", "zebra", "app", "Zulu"] {
        let rec = Record::from_map(vec![("k".to_string(), Literal::Str(k.to_string()))]);
        table.insert(&Key::Str(k.to_string()), rec).unwrap();
    }
    let keys: Vec<String> = table.records().iter().map(|(k, _)| k.to_string()).collect();
    assert_eq!(keys, vec!["Zulu", "app", "apple", "pear", "zebra"]);
    assert!(table.contains(&Key::Str("apple".to_string())));
    table.delete(&Key::Str("apple".to_string())).unwrap();
    assert!(!table.contains(&Key::Str("apple".to_string())));
    assert!(matches!(
        table.delete(&Key::Str("apple".to_string())),
        Err(DbError::Delete(DeleteErr::InvalidKey { table, key })) if table == "t" && key == "apple"
    ));
    let keys: Vec<String> = table.records().iter().map(|(k, _)| k.to_string()).collect();
    assert_eq!(keys, vec!["Zulu", "app", "pear", "zebra"]);
}

#[test]
fn integer_keys_in_numeric_order() {
    let mut table = Table::from_schema("p", &pope_schema());
    for k in [10i64, -3, 7, 100, 0] {
        let rec = Record::from_map(vec![("id".to_string(), Literal::Int(k))]);
        table.insert(&Key::Int(k), rec).unwrap();
    }
    let keys: Vec<String> = table.records().iter().map(|(k, _)| k.to_string()).collect();
    assert_eq!(keys, vec!["-3", "0", "7", "10", "100"]);
    let rec = Record::from_map(vec![("id".to_string(), Literal::Int(7))]);
    assert!(matches!(rec.get_key(&pope_schema()), Some(Key::Int(7))));
}

fn done(r: Result<Step, CommandError>) -> String {
    match r {
        Ok(Step::Done(m)) => m,
        Ok(_) => panic!("not a finished command"),
        Err(e) => panic!("failed: {:?}", e),
    }
}

#[test]
fn a_session_of_commands() {
    let mut db = Database::new(FieldType::Int);
    assert_eq!(done(execute("CREATE cows KEY id FIELDS id: int, name: string, milked: bool", &mut db)), "Successfuly created 'cows'.");
    assert!(matches!(
        execute("create cows key id fields id: int", &mut db),
        Err(CommandError::Database(DbError::Create(CreateErr::AlreadyExists { table }))) if table == "cows"
    ));
    assert!(matches!(
        execute("create words key w fields w: string", &mut db),
        Err(CommandError::Database(DbError::Insert(InsertErr::InvalidKeyType { got, expected }))) if got == "string" && expected == "int"
    ));
    assert_eq!(done(execute("insert id = 1, name = \"Mu\", milked = false into cows", &mut db)), "Successfuly inserted.");
    assert_eq!(done(execute("INSERT milked=true,name=\"Bo\",id=2 INTO cows", &mut db)), "Successfuly inserted.");
    assert!(matches!(
        execute("insert id = 1, name = \"Again\", milked = true into cows", &mut db),
        Err(CommandError::Database(DbError::Insert(InsertErr::KeyUsed { table, key }))) if table == "cows" && key == "1"
    ));
    assert!(matches!(
        execute("insert id = 3 into goats", &mut db),
        Err(CommandError::Parse(ParseErr::Database(DbError::Insert(InsertErr::TableNotFound(t))))) if t == "goats"
    ));
    assert_eq!(db.get_table("cows").unwrap().records().len(), 2);
    match execute("select name from cows where milked = true", &mut db) {
        Ok(Step::Select { fields, table, conditions }) => {
            assert_eq!(fields, vec!["name".to_string()]);
            assert_eq!(table, "cows");
            assert!(matches!(&conditions[0], (n, CondOp::Equals, Literal::Bool(true)) if n == "milked"));
        },
        _ => panic!("select was not read"),
    }
    assert_eq!(done(execute("delete 1 from cows", &mut db)), "Successfuly deleted.");
    assert!(matches!(
        execute("delete 1 from cows", &mut db),
        Err(CommandError::Database(DbError::Delete(DeleteErr::InvalidKey { table, key }))) if table == "cows" && key == "1"
    ));
    assert!(matches!(
        execute("delete x from cows", &mut db),
        Err(CommandError::Parse(ParseErr::InvalidLiteral { literal, typ })) if literal == "x" && typ == "int"
    ));
    assert_eq!(db.get_table("cows").unwrap().records().len(), 1);
    assert!(matches!(execute("save_as h.txt", &mut db), Ok(Step::SaveAs(s)) if s.file == "h.txt"));
    assert!(matches!(execute("read_from cmds.txt", &mut db), Ok(Step::ReadFrom(f)) if f == "cmds.txt"));
    assert!(matches!(execute("   ", &mut db), Err(CommandError::Parse(ParseErr::Empty))));
}

#[test]
fn float_literals_follow_the_f64_grammar() {
    let cases = [
        "1.5", "-2", "+.5", "5.", "1e10", "1E-3", "2.5e+7", "inf", "-Infinity", "NaN", "+nan", "007.25", "", ".", "e5",
        "1e", "1.2.3", "1e+", "abc", "in", "--1", "1e5.5", "0x10", " 1", "1 ", "+", "-.e1", "infinit",
    ];
    for s in cases {
        let ours = parse_literal(s, FieldType::Float);
        assert_eq!(ours.is_ok(), s.parse::<f64>().is_ok(), "{:?}", s);
        match ours {
            Ok(Literal::Float(t)) => assert_eq!(t, s),
            Err(ParseErr::InvalidLiteral { literal, typ }) => {
                assert_eq!(literal, s);
                assert_eq!(typ, "float");
            },
            other => panic!("unexpected {:?}", other),
        }
    }
}

fn show(l: &Literal) -> String {
    match l {
        Literal::Bool(b) => b.to_string(),
        Literal::Str(s) => format!("\"{}\"", s),
        Literal::Int(i) => i.to_string(),
        Literal::Float(f) => f.clone(),
    }
}

fn select_text(table: &Table, fields: &Vec<String>, conds: &Vec<(String, CondOp, Literal)>) -> Result<String, SelectError> {
    let orders = vec![vec![Order::Unordered; conds.len()]; table.records().len()];
    let rows = select_rows(table, fields, conds, &orders)?;
    let lines: Vec<String> = rows
        .iter()
        .map(|row| row.iter().zip(fields.iter()).map(|(l, f)| format!("{}: {}", f, show(l))).collect::<Vec<String>>().join(", "))
        .collect();
    Ok(lines.join("\n"))
}

#[test]
fn test_select_where() {
    let schema = pope_schema();
    let mut table = Table::from_schema("Pope_table", &schema);
    table
        .insert(
            &Key::Int(1),
            Record::from_map(vec![
                ("id".to_string(), Literal::Int(1)),
                ("name".to_string(), Literal::Str("John Paul II".to_string())),
                ("likes_kremówki".to_string(), Literal::Bool(true)),
            ]),
        )
        .unwrap();
    table
        .insert(
            &Key::Int(2),
            Record::from_map(vec![
                ("id".to_string(), Literal::Int(2)),
                ("name".to_string(), Literal::Str("Francis".to_string())),
                ("likes_kremówki".to_string(), Literal::Bool(false)),
            ]),
        )
        .unwrap();
    let conditions = vec![("likes_kremówki".to_string(), CondOp::Equals, Literal::Bool(true))];
    let result = select_text(&table, &vec!["name".to_string(), "likes_kremówki".to_string()], &conditions).unwrap();
    assert_eq!(result, "name: \"John Paul II\", likes_kremówki: true");
}

#[test]
fn comparisons_and_selection_errors() {
    assert_eq!(compare(&Literal::Int(3), &Literal::Int(5), Order::Unordered).unwrap(), Order::Less);
    assert_eq!(compare(&Literal::Str("b".into()), &Literal::Str("a".into()), Order::Unordered).unwrap(), Order::Greater);
    assert_eq!(compare(&Literal::Bool(false), &Literal::Bool(true), Order::Unordered).unwrap(), Order::Less);
    assert_eq!(compare(&Literal::Float("1".into()), &Literal::Float("2".into()), Order::Less).unwrap(), Order::Less);
    assert!(matches!(
        compare(&Literal::Int(3), &Literal::Bool(true), Order::Equal),
        Err(SelectError::MismatchedOperandTypes { left: FieldType::Int, right: FieldType::Bool })
    ));
    assert!(holds(CondOp::LessThan, Order::Equal));
    assert!(holds(CondOp::NotEquals, Order::Unordered));
    assert!(!holds(CondOp::GreaterEqual, Order::Unordered));

    let table = Table::from_schema("p", &pope_schema());
    assert!(matches!(
        check_fields(&table, &vec!["id".to_string(), "age".to_string()]),
        Err(SelectError::InvalidField { table, field }) if table == "p" && field == "age"
    ));
    let rec = Record::from_map(vec![("id".to_string(), Literal::Int(1))]);
    assert!(matches!(project(&rec, &vec!["name".to_string()]), Err(SelectError::RecordField(f)) if f == "name"));
    assert_eq!(project(&rec, &vec!["id".to_string(), "id".to_string()]).unwrap(), vec![0, 0]);
    let conds = vec![("id".to_string(), CondOp::Equals, Literal::Str("1".into()))];
    assert!(matches!(
        record_passes(&rec, &conds, &vec![Order::Unordered]),
        Err(SelectError::MismatchedOperandTypes { left: FieldType::Int, right: FieldType::String })
    ));
}

#[test]
fn select_rows_follow_keys_conditions_and_float_orders() {
    let schema = Schema::from_map(vec![("id".to_string(), FieldType::Int), ("w".to_string(), FieldType::Float)], "id").unwrap();
    let mut table = Table::from_schema("t", &schema);
    for (k, w) in [(3i64, "2.5"), (1, "0.5"), (2, "9")] {
        table
            .insert(&Key::Int(k), Record::from_map(vec![("id".to_string(), Literal::Int(k)), ("w".to_string(), Literal::Float(w.to_string()))]))
            .unwrap();
    }
    let conds = vec![("w".to_string(), CondOp::Greater, Literal::Float("1".to_string()))];
    // rows in key order: 1 (0.5), 2 (9), 3 (2.5)
    let orders = vec![vec![Order::Less], vec![Order::Greater], vec![Order::Greater]];
    let rows = select_rows(&table, &vec!["id".to_string()], &conds, &orders).unwrap();
    assert_eq!(rows.len(), 2);
    assert!(matches!(rows[0][0], Literal::Int(2)));
    assert!(matches!(rows[1][0], Literal::Int(3)));
    assert!(matches!(
        select_rows(&table, &vec!["nope".to_string()], &conds, &orders),
        Err(SelectError::InvalidField { field, .. }) if field == "nope"
    ));
    let bad = vec![("id".to_string(), CondOp::Equals, Literal::Bool(true))];
    assert!(matches!(
        select_rows(&table, &vec!["id".to_string()], &bad, &vec![vec![Order::Unordered]; 3]),
        Err(SelectError::MismatchedOperandTypes { .. })
    ));
}
