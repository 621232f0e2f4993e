//! A verified core for exposing spreadsheet data as queryable rows.
//!
//! The crate parses creation-argument strings into typed options, models
//! spreadsheet coordinates in A1 notation, resolves a configured cell range
//! against a worksheet's actual bounds, derives a column schema, and streams
//! rows through a forward-only reader.

pub mod cells;
pub mod grid;
pub mod manager;
pub mod options;
pub mod reader;
pub mod schema;
pub mod text;
pub mod values;
