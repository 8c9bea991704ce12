use rust_labs::db::errors::ParseErr;
use rust_labs::db::schema::{FieldType, Schema};
use rust_labs::db::tokens::{
    expect_empty, expect_token, matches_charset, next_token, split_and_keep, token_any_separator,
    token_maybe_separator, token_or_empty, token_separator, token_stream, Tokens,
};

fn all_tokens(line: &str) -> Vec<&str> {
    let mut t = token_stream(line);
    let mut out = Vec::new();
    while let Some(x) = t.next() {
        out.push(x);
    }
    out
}

#[test]
fn split_and_keep_keeps_separators() {
    assert_eq!(split_and_keep("a,b,,c", ",", false), vec![("a", false), (",", true), ("b", false), (",", true), (",", true), ("c", false)]);
    assert_eq!(split_and_keep(",x,", ",", false), vec![(",", true), ("x", false), (",", true)]);
    assert_eq!(split_and_keep("abc", "<=", false), vec![("abc", false)]);
    assert_eq!(split_and_keep("", ",", false), Vec::<(&str, bool)>::new());
}

#[test]
fn split_and_keep_skip_and_empty_separator() {
    assert_eq!(split_and_keep("a,b", ",", true), vec![("a,b", true)]);
    assert_eq!(split_and_keep("", ",", true), vec![("", true)]);
    assert_eq!(split_and_keep("ab", "", false), vec![("a", false), ("b", false)]);
}

#[test]
fn token_stream_splits_operators() {
    assert_eq!(all_tokens("SELECT a,b FROM t WHERE x>=3, y!=\"q\""), vec!["SELECT", "a", ",", "b", "FROM", "t", "WHERE", "x", ">=", "3", ",", "y", "!=", "\"q\""]);
    assert_eq!(all_tokens("  CREATE t KEY id FIELDS id:int,  name: string "), vec!["CREATE", "t", "KEY", "id", "FIELDS", "id", ":", "int", ",", "name", ":", "string"]);
    assert_eq!(all_tokens("a<b>c=d"), vec!["a", "<", "b", ">", "c", "=", "d"]);
    assert_eq!(all_tokens("   "), Vec::<&str>::new());
}

#[test]
fn matches_charset_reports_first_bad_char() {
    assert_eq!(matches_charset("abc_1", "abc_1").unwrap(), "abc_1");
    match matches_charset("ab$c#", "abc") {
        Err(ParseErr::FieldInvalidChar(c)) => assert_eq!(c, '$'),
        _ => panic!("expected an invalid character"),
    }
}

#[test]
fn next_and_expect_token() {
    let mut t = Tokens::from_vec(vec!["key", "x"]);
    assert_eq!(expect_token(&mut t, "T", "KEY").unwrap(), "key");
    assert_eq!(next_token(&mut t, "KEY", "<NAME>").unwrap(), "x");
    match next_token(&mut t, "x", "<MORE>") {
        Err(ParseErr::MissingToken { prev, missing }) => {
            assert_eq!(prev, "x");
            assert_eq!(missing, "<MORE>");
        }
        _ => panic!("expected a missing token"),
    }
    let mut u = Tokens::from_vec(vec!["nope"]);
    assert!(matches!(expect_token(&mut u, "A", "KEY"), Err(ParseErr::MissingToken { .. })));
    assert!(u.peek().is_none());
}

#[test]
fn separators() {
    let mut t = Tokens::from_vec(vec!["name::", "type", ",", "next"]);
    assert_eq!(token_separator(&mut t, "<F>", ":").unwrap(), "name");
    let mut comma = false;
    assert_eq!(token_maybe_separator(&mut t, "<T>", ",", &mut comma).unwrap(), "type");
    assert!(comma);
    let mut comma2 = false;
    assert_eq!(token_maybe_separator(&mut t, "<T>", ",", &mut comma2).unwrap(), "next");
    assert!(!comma2);
    match token_separator(&mut t, "<F>", ":") {
        Err(ParseErr::ExpectedToken(m)) => assert_eq!(m, "<F>:"),
        _ => panic!("expected an error"),
    }
}

#[test]
fn any_separator_and_empty() {
    let ops = ["=", ">", "<"];
    let mut t = Tokens::from_vec(vec!["age", ">", "3"]);
    let mut found = "";
    assert_eq!(token_any_separator(&mut t, "<F>", &ops, &mut found).unwrap(), "age");
    assert_eq!(found, ">");
    let mut t2 = Tokens::from_vec(vec!["age", "~"]);
    match token_any_separator(&mut t2, "<F>", &ops, &mut found) {
        Err(ParseErr::ExpectedToken(m)) => assert_eq!(m, "<F>[=, >, <]"),
        _ => panic!("expected an error"),
    }
    match expect_empty(&mut t2, ",") {
        Err(ParseErr::WrongToken { expected, got }) => {
            assert_eq!(expected, ",");
            assert_eq!(got, "~");
        }
        _ => panic!("expected a wrong token"),
    }
    assert!(expect_empty(&mut t2, ",").is_ok());
    let mut empty = false;
    assert_eq!(token_or_empty(&mut t2, "T", "WHERE", &mut empty).unwrap(), None);
    assert!(empty);
    let mut t3 = Tokens::from_vec(vec!["where"]);
    assert_eq!(token_or_empty(&mut t3, "T", "WHERE", &mut empty).unwrap(), Some("where"));
    assert!(!empty);
}

#[test]
fn field_type_parse_and_print() {
    assert_eq!(FieldType::parse_from("INT").unwrap(), FieldType::Int);
    assert_eq!(FieldType::parse_from("Float").unwrap(), FieldType::Float);
    assert_eq!(FieldType::Bool.to_string(), "bool");
    assert_eq!(FieldType::String.to_string(), "string");
    match FieldType::parse_from("Strng") {
        Err(ParseErr::InvalidType(s)) => assert_eq!(s, "strng"),
        _ => panic!("expected an invalid type"),
    }
}

#[test]
fn test_schema_validation() {
    let fields = vec![("cow_name".to_string(), FieldType::String), ("was_milked".to_string(), FieldType::Bool)];

    let schema_some = Schema::from_map(fields.clone(), "cow_name");
    assert!(schema_some.is_some());
    let s = schema_some.unwrap();
    assert_eq!(s.get_key(), "cow_name");
    assert_eq!(s.get_key_type(), Some(&FieldType::String));
    assert_eq!(s.field_type("was_milked"), Some(&FieldType::Bool));
    assert_eq!(s.field_type("horns"), None);
    assert_eq!(s.get_fields().len(), 2);

    let schema_none = Schema::from_map(fields, "definitely_not_cow_name");
    assert!(schema_none.is_none());
}

#[test]
fn schema_rejects_repeated_names() {
    let fields = vec![("id".to_string(), FieldType::Int), ("id".to_string(), FieldType::String)];
    assert!(Schema::from_map(fields, "id").is_none());
}

#[test]
fn tokens_put_together_give_the_line_without_spaces() {
    let toks = all_tokens("a<=b, c:int");
    assert_eq!(toks, vec!["a", "<=", "b", ",", "c", ":", "int"]);
    assert_eq!(toks.concat(), "a<=b,c:int");
    let parts = split_and_keep("x,,y,", ",", false);
    let joined: String = parts.iter().map(|(p, _)| *p).collect();
    assert_eq!(joined, "x,,y,");
    assert!(parts.iter().all(|(p, marked)| if *marked { *p == "," } else { !p.is_empty() && *p != "," }));
}
