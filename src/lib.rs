//! A small embedded record store: named tables of id-addressed records,
//! persisted one file per table.

pub mod files;
pub mod laws;
pub mod model;
pub mod store;
pub mod table;

pub use files::{is_table_file, table_file_name};
pub use store::MiniDB;
pub use table::{Record, Table};
