//! The logical-type mapping: each logical column type's PostgreSQL and SQLite
//! native spelling and its portable marker for `schema.rs`.
use crate::sqlparse::SqlType;
use vstd::prelude::*;

verus! {

/// A target backend of the generated migrations.
#[derive(Clone, Copy, Debug, PartialEq, Eq, Structural)]
pub enum Backend {
    Postgres,
    Sqlite,
}

/// One logical type's three renderings.
#[derive(Clone, Copy)]
pub struct Mapped {
    pub pg: &'static str,
    pub sqlite: &'static str,
    /// Fully-qualified diesel SQL-type marker for `schema.rs`.
    pub marker: &'static str,
}

pub struct MappedV {
    pub pg: Seq<char>,
    pub sqlite: Seq<char>,
    pub marker: Seq<char>,
}

impl View for Mapped {
    type V = MappedV;

    open spec fn view(&self) -> MappedV {
        MappedV { pg: self.pg@, sqlite: self.sqlite@, marker: self.marker@ }
    }
}

pub open spec fn mapped(pg: &str, sqlite: &str, marker: &str) -> Option<MappedV> {
    Some(MappedV { pg: pg@, sqlite: sqlite@, marker: marker@ })
}

/// The mapping table: logical SQL type to (PG native, SQLite native, marker).
/// Precision and scale play no part; types outside the table (among them
/// `DATE`, `TIME` and `NUMERIC` / `DECIMAL`) have no mapping.
pub open spec fn mapping(t: SqlType) -> Option<MappedV> {
    match t {
        SqlType::Uuid => mapped("UUID", "BLOB", "diesel_dualdb::sql_types::Uuid"),
        SqlType::Timestamp => mapped("TIMESTAMPTZ", "TEXT", "diesel_dualdb::sql_types::Timestamp"),
        SqlType::Json | SqlType::Jsonb => mapped("JSONB", "TEXT", "diesel_dualdb::sql_types::Json"),
        SqlType::Bytea => mapped("BYTEA", "BLOB", "diesel_dualdb::sql_types::Bytes"),
        SqlType::Text => mapped("TEXT", "TEXT", "diesel::sql_types::Text"),
        SqlType::SmallInt => mapped("SMALLINT", "SMALLINT", "diesel::sql_types::SmallInt"),
        SqlType::Integer | SqlType::Int => mapped("INTEGER", "INTEGER", "diesel::sql_types::Integer"),
        SqlType::BigInt => mapped("BIGINT", "BIGINT", "diesel::sql_types::BigInt"),
        SqlType::Real | SqlType::Float => mapped("REAL", "REAL", "diesel::sql_types::Float"),
        SqlType::Boolean | SqlType::Bool => mapped("BOOLEAN", "INTEGER", "diesel::sql_types::Bool"),
        SqlType::Numeric | SqlType::Decimal | SqlType::Dec | SqlType::Other => None,
    }
}

/// The native spelling of a mapped type on `backend`.
pub open spec fn native_of(m: MappedV, backend: Backend) -> Seq<char> {
    match backend {
        Backend::Postgres => m.pg,
        Backend::Sqlite => m.sqlite,
    }
}

/// Looks a logical type up in the mapping table.
pub fn map_type(dt: SqlType) -> (r: Option<Mapped>)
    ensures
        match r {
            Some(m) => mapping(dt) == Some(m@),
            None => mapping(dt) is None,
        },
{
    let m = |pg: &'static str, sqlite: &'static str, marker: &'static str| -> (r: Option<Mapped>)
        ensures
            r == Some(Mapped { pg, sqlite, marker }),
        { Some(Mapped { pg, sqlite, marker }) };
    match dt {
        SqlType::Uuid => m("UUID", "BLOB", "diesel_dualdb::sql_types::Uuid"),
        SqlType::Timestamp => m("TIMESTAMPTZ", "TEXT", "diesel_dualdb::sql_types::Timestamp"),
        SqlType::Json | SqlType::Jsonb => m("JSONB", "TEXT", "diesel_dualdb::sql_types::Json"),
        SqlType::Bytea => m("BYTEA", "BLOB", "diesel_dualdb::sql_types::Bytes"),
        SqlType::Text => m("TEXT", "TEXT", "diesel::sql_types::Text"),
        SqlType::SmallInt => m("SMALLINT", "SMALLINT", "diesel::sql_types::SmallInt"),
        SqlType::Integer | SqlType::Int => m("INTEGER", "INTEGER", "diesel::sql_types::Integer"),
        SqlType::BigInt => m("BIGINT", "BIGINT", "diesel::sql_types::BigInt"),
        SqlType::Real | SqlType::Float => m("REAL", "REAL", "diesel::sql_types::Float"),
        SqlType::Boolean | SqlType::Bool => m("BOOLEAN", "INTEGER", "diesel::sql_types::Bool"),
        SqlType::Numeric | SqlType::Decimal | SqlType::Dec | SqlType::Other => None,
    }
}

impl Mapped {
    /// This type's native spelling on `backend`.
    pub fn native(&self, backend: Backend) -> (r: &'static str)
        ensures
            r@ == native_of(self@, backend),
    {
        match backend {
            Backend::Postgres => self.pg,
            Backend::Sqlite => self.sqlite,
        }
    }
}

} // verus!
