//! The store: its tables, what the collector writes to them, and what readers
//! make of them.

pub mod reader;
pub mod recall;
pub mod rows;
pub mod schema;
pub mod tables;
pub mod writer;

pub use tables::Db;
