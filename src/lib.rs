//! Read-only decoding of single-file, page-oriented relational database
//! files: the 100-byte file header, B-tree pages, cells, overflow chains,
//! records, the schema catalog and an ordered walk of table B-trees, each
//! decoder proved against a mathematical model of the on-disk layout; and
//! the splitting of the SELECT and CREATE TABLE texts that a query front end
//! hands over.

pub mod btree;
pub mod bytes;
pub mod cell;
pub mod database;
pub mod error;
pub mod header;
pub mod overflow;
pub mod page;
pub mod record;
pub mod schema;
pub mod sql;
pub mod varint;

pub use error::DecodeError;
pub use varint::Varint;
