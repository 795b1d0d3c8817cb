use crate::text::join2;
use crate::text::join3;
use vstd::prelude::*;

verus! {

/// What can go wrong in the store, in its commands and in its snapshots.
#[derive(Debug, PartialEq, Eq)]
pub enum DatabaseError {
    /// No table of this name exists.
    TableNotFound(String),
    /// A table of this name exists already.
    DuplicateTable(String),
    /// A row lacks a column that its table declares.
    SchemaViolation,
    /// A command has a known keyword but not the form that goes with it; the
    /// text says what is wrong.
    InvalidSyntax(String),
    /// A command does not start with a known keyword.
    UnknownCommand,
    /// A snapshot does not decode to a valid state; the text says why.
    CorruptData(String),
    /// No snapshot exists at the place named.
    MissingFile(String),
    /// A snapshot could not be written or read; the text says why.
    IOFailure(String),
}

/// A `DatabaseError` as mathematics.
pub enum Failure {
    TableNotFound(Seq<char>),
    DuplicateTable(Seq<char>),
    SchemaViolation,
    InvalidSyntax(Seq<char>),
    UnknownCommand,
    CorruptData(Seq<char>),
    MissingFile(Seq<char>),
    IOFailure(Seq<char>),
}

impl View for DatabaseError {
    type V = Failure;

    open spec fn view(&self) -> Failure {
        match self {
            DatabaseError::TableNotFound(name) => Failure::TableNotFound(name@),
            DatabaseError::DuplicateTable(name) => Failure::DuplicateTable(name@),
            DatabaseError::SchemaViolation => Failure::SchemaViolation,
            DatabaseError::InvalidSyntax(reason) => Failure::InvalidSyntax(reason@),
            DatabaseError::UnknownCommand => Failure::UnknownCommand,
            DatabaseError::CorruptData(detail) => Failure::CorruptData(detail@),
            DatabaseError::MissingFile(place) => Failure::MissingFile(place@),
            DatabaseError::IOFailure(detail) => Failure::IOFailure(detail@),
        }
    }
}

/// The one-line text that reports a failure to a person.
pub open spec fn message_of(failure: Failure) -> Seq<char> {
    match failure {
        Failure::TableNotFound(name) => "Table '"@ + name + "' not found"@,
        Failure::DuplicateTable(name) => "Table '"@ + name + "' already exists"@,
        Failure::SchemaViolation => "Row missing required columns"@,
        Failure::InvalidSyntax(reason) => reason,
        Failure::UnknownCommand => "Unknown command"@,
        Failure::CorruptData(detail) => "Corrupt data: "@ + detail,
        Failure::MissingFile(place) => "File not found: "@ + place,
        Failure::IOFailure(detail) => "I/O failure: "@ + detail,
    }
}

impl Clone for DatabaseError {
    fn clone(&self) -> (copy: Self)
        ensures
            copy@ == self@,
    {
        match self {
            DatabaseError::TableNotFound(name) => DatabaseError::TableNotFound(name.clone()),
            DatabaseError::DuplicateTable(name) => DatabaseError::DuplicateTable(name.clone()),
            DatabaseError::SchemaViolation => DatabaseError::SchemaViolation,
            DatabaseError::InvalidSyntax(reason) => DatabaseError::InvalidSyntax(reason.clone()),
            DatabaseError::UnknownCommand => DatabaseError::UnknownCommand,
            DatabaseError::CorruptData(detail) => DatabaseError::CorruptData(detail.clone()),
            DatabaseError::MissingFile(place) => DatabaseError::MissingFile(place.clone()),
            DatabaseError::IOFailure(detail) => DatabaseError::IOFailure(detail.clone()),
        }
    }
}

impl DatabaseError {
    /// The one-line text that reports this error to a person.
    pub fn message(&self) -> (text: String)
        ensures
            text@ == message_of(self@),
    {
        match self {
            DatabaseError::TableNotFound(name) => join3("Table '", name.as_str(), "' not found"),
            DatabaseError::DuplicateTable(name) => join3(
                "Table '",
                name.as_str(),
                "' already exists",
            ),
            DatabaseError::SchemaViolation => "Row missing required columns".to_owned(),
            DatabaseError::InvalidSyntax(reason) => reason.clone(),
            DatabaseError::UnknownCommand => "Unknown command".to_owned(),
            DatabaseError::CorruptData(detail) => join2("Corrupt data: ", detail.as_str()),
            DatabaseError::MissingFile(place) => join2("File not found: ", place.as_str()),
            DatabaseError::IOFailure(detail) => join2("I/O failure: ", detail.as_str()),
        }
    }
}

} // verus!
