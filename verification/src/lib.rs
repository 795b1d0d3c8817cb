//! A small tabular data store with a command language and whole-state
//! snapshots.
//!
//! - `schema`: rows and tables; every row of a table has a value for each
//!   column that the table declares.
//! - `engine`: the tables of one store, by name.
//! - `lexer`, `command`: the command language, from text to `Command`.
//! - `query`, `render`: what each command does to the engine, and its reply.
//! - `session`: what a front end does with a line of input, and when it
//!   owes a save.
//! - `snapshot`, `binary`, `readable`: the whole state as plain values, as
//!   bincode bytes and as JSON text.
//! - `demo`: a table to start with.
//!
//! Rows, tables and engines keep their contents in the order of insertion,
//! so listings and snapshots come out the same way every time. The engine
//! takes no lock of its own: whoever holds `&mut StorageEngine` holds it
//! alone, and callers that share an engine share it behind one lock.

pub mod binary;
pub mod command;
pub mod demo;
pub mod engine;
pub mod error;
pub mod lexer;
pub mod query;
pub mod readable;
pub mod render;
pub mod schema;
pub mod session;
pub mod snapshot;
pub mod text;

pub use demo::setup_demo_data;
pub use engine::StorageEngine;
pub use error::DatabaseError;
pub use query::QueryEngine;
pub use schema::Row;
pub use schema::Table;
