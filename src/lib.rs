// A store of flat records in a full-text indexed table: schemas derived from
// a record's fields, records written and read back as named values, and
// JSON-shaped filters compiled to parameterised predicates.

pub mod field;
pub mod filter;
pub mod install;
pub mod json;
pub mod laws;
pub mod marshal;
pub mod packages;
pub mod repository;
pub mod semantics;
pub mod sql;
pub mod table;
pub mod text;
pub mod util;
