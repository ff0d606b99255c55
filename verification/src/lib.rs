//! Portable dual-backend (PostgreSQL + SQLite) schema generation and value
//! encodings, verified with Verus.
pub mod ddl;
pub mod generate;
pub mod macros;
pub mod mapping;
pub mod model;
pub mod pool;
pub mod render;
pub mod segment;
pub mod sql_types;
pub mod sqlparse;
pub mod text;
pub mod timestamp;
pub mod types;
