//! As-of joins: for every left row, the single nearest right row.
//!
//! The crate decides, plans and runs as-of joins over columns of plain values.
//! Sorting and the byte encoding that makes key rows comparable come from the
//! `arrow` crate; everything that is decided from them is verified here.

pub mod array;
pub mod asof;
pub mod batch;
pub mod condition;
pub mod error;
pub mod eval;
pub mod exec;
pub mod expr;
pub mod join;
pub mod key_laws;
pub mod keys;
pub mod laws;
pub mod merge;
pub mod order;
pub mod plan;
pub mod plan_laws;
pub mod predicates;
pub mod repeated;
pub mod row_laws;
pub mod rows;
pub mod selection;
pub mod selection_laws;
mod shared;
pub mod sort;
pub mod sql;
pub mod sql_laws;
pub mod stream;
pub mod text;
pub mod tree;
pub mod tree_laws;
pub mod types;
