//! Droplet's core: the handle registry, the single-statement guard for agent SQL, the SQL
//! text the local analyze engine hands to DuckDB and the cap on its read-outs, the
//! conversion of sandbox arguments, the tool-stub rules and the decisions of a sandbox run.
pub mod cell;
pub mod convert;
pub mod engine;
pub mod error;
pub mod registry;
pub mod session;
pub mod source;
pub mod statement;
pub mod stub;
pub mod text;
