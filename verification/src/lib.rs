//! Turns a Borsh schema into TypeScript classes that read and write the same bytes.
//!
//! The work has two halves. `builder` resolves each declaration of a schema into a
//! `ts::Target`, filling a table in the order in which the targets are completed.
//! `generator` renders that table as TypeScript source text.
pub mod builder;
pub mod errors;
pub mod generator;
pub mod memo;
pub mod parser;
pub mod schema;
pub mod table;
pub mod text;
pub mod ts;
