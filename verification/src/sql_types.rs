//! Portable marker SQL types.
//!
//! Each marker stands for one logical column type that resolves to a native
//! type per backend. The markers carry no data: columns and the value types in
//! [`crate::types`] are typed against them.
use core::marker::PhantomData;
use vstd::prelude::*;

verus! {

/// Portable UUID: PostgreSQL `uuid`, SQLite 16-byte `BLOB`.
#[derive(Clone, Copy, Debug)]
pub struct Uuid;

/// Portable binary blob: PostgreSQL `bytea`, SQLite `BLOB`.
#[derive(Clone, Copy, Debug)]
pub struct Bytes;

/// Portable UTC timestamp: PostgreSQL `timestamptz`, SQLite fixed-format
/// RFC3339 `TEXT` (UTC, `Z`, six fractional digits), so that string order is
/// chronological order.
#[derive(Clone, Copy, Debug)]
pub struct Timestamp;

/// Portable JSON: PostgreSQL `jsonb`, SQLite `TEXT` holding the serialized
/// JSON.
#[derive(Clone, Copy, Debug)]
pub struct Json;

/// Portable arbitrary-precision decimal: PostgreSQL `numeric`, SQLite the
/// canonical decimal string as `TEXT`.
#[derive(Clone, Copy, Debug)]
pub struct Decimal;

/// Portable array of `ST`: PostgreSQL a native array of the element type,
/// SQLite the elements as a JSON array in `TEXT`. The element type is held as
/// `PhantomData`, so the marker can be constructed.
#[derive(Debug)]
pub struct Array<ST: 'static>(pub PhantomData<ST>);

impl<ST: 'static> Clone for Array<ST> {
    fn clone(&self) -> (r: Self)
        ensures
            r == *self,
    {
        Array(PhantomData)
    }
}

impl<ST: 'static> Copy for Array<ST> {

}

impl<ST: 'static> Default for Array<ST> {
    fn default() -> (r: Self)
        ensures
            r == Array::<ST>(PhantomData),
    {
        Array(PhantomData)
    }
}

} // verus!
