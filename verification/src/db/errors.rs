use vstd::prelude::*;

verus! {

/// Why a command line could not be parsed.
#[derive(Debug)]
pub enum ParseErr {
    Empty,
    UnknownCommand(String),
    MissingToken { prev: String, missing: String },
    ExpectedToken(String),
    WrongToken { expected: String, got: String },
    InvalidType(String),
    InvalidLiteral { literal: String, typ: String },
    FieldExists(String),
    FieldInvalidChar(char),
    InvalidField { field: String, table: String },
    MissingField { field: String, table: String },
    MissingPrimaryKey(String),
    UnknownOperator(String),
    Unreachable,
    Database(DbError),
}

/// Why a database operation failed.
#[derive(Debug)]
pub enum DbError {
    Create(CreateErr),
    Insert(InsertErr),
    Delete(DeleteErr),
}

#[derive(Debug)]
pub enum CreateErr {
    AlreadyExists { table: String },
}

#[derive(Debug)]
pub enum InsertErr {
    InvalidField { table: String, field: String },
    MissingField { table: String, field: String },
    KeyUsed { table: String, key: String },
    TableNotFound(String),
    InvalidKeyType { got: String, expected: String },
}

#[derive(Debug)]
pub enum DeleteErr {
    InvalidKey { table: String, key: String },
    TableNotFound(String),
}

#[derive(Debug)]
pub enum RecordError {
    InvalidField(String),
    MissingField(String),
}

} // verus!
