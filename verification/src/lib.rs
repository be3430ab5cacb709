//! A typed, extensible tabular data engine.
//!
//! A database is a collection of rows whose cells are stored as raw strings
//! and interpreted through the owning field's type option (single-select,
//! multi-select, checkbox, ...).  A session manager lazily constructs and
//! caches one editor per database while several views reference it.

pub mod cell;
pub mod checkbox_type_option;
pub mod database;
pub mod editor;
pub mod error;
pub mod field;
pub mod field_type;
pub mod filter;
pub mod manager;
pub mod multi_select_type_option;
pub mod order;
pub mod row;
pub mod select_option;
pub mod select_shared;
pub mod single_select_type_option;
pub mod snapshot;
pub mod template;
pub mod type_option;

pub use error::DatabaseError;
