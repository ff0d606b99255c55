//! Portable value types and the encodings the library computes for them:
//! the 16-byte SQLite blob of a UUID and the version-1 framing of PostgreSQL
//! `jsonb`, and the decimal's SQLite text. The timestamp and its SQLite text
//! live in [`crate::timestamp`].
pub use crate::timestamp::Timestamp;
use crate::text::{debug_text, str_debug};
use crate::timestamp::{fixed_digits, num_digits};
use bigdecimal::BigDecimal;
use vstd::prelude::*;
use vstd::std_specs::convert::FromSpecImpl;

verus! {

// ===== Bytes =====

/// A binary blob, stored as `bytea` (PostgreSQL) or `BLOB` (SQLite) as it is.
#[derive(Clone, Debug, PartialEq, Eq, Hash, Default)]
pub struct Bytes(pub Vec<u8>);

impl From<Vec<u8>> for Bytes {
    fn from(value: Vec<u8>) -> (r: Self) {
        Bytes(value)
    }
}

impl FromSpecImpl<Vec<u8>> for Bytes {
    open spec fn obeys_from_spec() -> bool {
        true
    }

    open spec fn from_spec(v: Vec<u8>) -> Self {
        Bytes(v)
    }
}

impl From<Bytes> for Vec<u8> {
    fn from(value: Bytes) -> (r: Self) {
        value.0
    }
}

impl FromSpecImpl<Bytes> for Vec<u8> {
    open spec fn obeys_from_spec() -> bool {
        true
    }

    open spec fn from_spec(v: Bytes) -> Self {
        v.0
    }
}

// ===== Uuid =====

/// A UUID, held as its 16 bytes in the order `uuid::Uuid::as_bytes` gives.
/// PostgreSQL stores it as native `uuid`; SQLite stores the 16 bytes as a
/// `BLOB`.
#[derive(Clone, Copy, Debug, PartialEq, Eq, Hash)]
pub struct Uuid(pub [u8; 16]);

/// The decimal form of `n`, as `{}` prints it.
pub open spec fn decimal_text(n: nat) -> Seq<char> {
    fixed_digits(n as int, num_digits(n))
}

/// The message `uuid::Error` displays for a byte slice of length `len`.
pub open spec fn uuid_length_error(len: nat) -> Seq<char> {
    "invalid length: expected 16 bytes, found "@ + decimal_text(len)
}

/// `uuid::Uuid::from_slice`: the uuid's bytes are the slice's bytes when it
/// holds exactly 16 of them (the source copies them as they are and
/// `as_bytes` hands them back); any other length is an error whose message
/// is "invalid length: expected 16 bytes, found " and the length.
#[verifier::external_body]
fn uuid_from_slice(b: &[u8]) -> (r: Result<[u8; 16], String>)
    ensures
        match r {
            Ok(a) => b@.len() == 16 && a@ == b@,
            Err(e) => b@.len() != 16 && e@ == uuid_length_error(b@.len()),
        },
{
    match uuid::Uuid::from_slice(b) {
        Ok(u) => Ok(*u.as_bytes()),
        Err(e) => Err(e.to_string()),
    }
}

/// The bytes of the UUID a SQLite blob holds: the blob itself when it has
/// exactly 16 bytes.
pub open spec fn blob_uuid(blob: Seq<u8>) -> Option<Seq<u8>> {
    if blob.len() == 16 {
        Some(blob)
    } else {
        None
    }
}

/// A UUID's blob reads back as that UUID.
pub proof fn lemma_uuid_blob_round_trip(u: Uuid)
    ensures
        blob_uuid(u.0@) == Some(u.0@),
{
}

/// The message for a SQLite blob that is not a UUID.
pub open spec fn invalid_uuid_error(len: nat) -> Seq<char> {
    "invalid UUID bytes: "@ + uuid_length_error(len)
}

impl Uuid {
    /// The SQLite `BLOB`: the 16 bytes as they are.
    pub fn to_blob(&self) -> (r: Vec<u8>)
        ensures
            r@ == self.0@,
    {
        let mut r: Vec<u8> = Vec::new();
        for i in 0..16
            invariant
                r@ == self.0@.take(i as int),
        {
            r.push(self.0[i]);
            assert(r@ =~= self.0@.take(i + 1));
        }
        assert(self.0@.take(16) =~= self.0@);
        r
    }

    /// Reads a UUID back from a SQLite `BLOB`, which must hold exactly 16
    /// bytes.
    pub fn from_blob(blob: &[u8]) -> (r: Result<Uuid, String>)
        ensures
            match r {
                Ok(u) => blob_uuid(blob@) == Some(u.0@),
                Err(e) => blob_uuid(blob@) is None && e@ == invalid_uuid_error(blob@.len()),
            },
    {
        match uuid_from_slice(blob) {
            Ok(a) => Ok(Uuid(a)),
            Err(e) => {
                let mut m = String::from_str("invalid UUID bytes: ");
                m.append(e.as_str());
                Err(m)
            },
        }
    }
}

// ===== Json =====

/// A JSON value of any serializable `T`. PostgreSQL stores it as `jsonb`
/// (a version byte `1` followed by the UTF-8 JSON); SQLite stores the JSON
/// text.
#[derive(Clone, Debug, PartialEq)]
pub struct Json<T>(pub T);

impl<T> From<T> for Json<T> {
    fn from(value: T) -> (r: Self) {
        Json(value)
    }
}

impl<T> FromSpecImpl<T> for Json<T> {
    open spec fn obeys_from_spec() -> bool {
        true
    }

    open spec fn from_spec(v: T) -> Self {
        Json(v)
    }
}

/// The `jsonb` format version this library writes and reads.
pub const JSONB_VERSION: u8 = 1u8;

/// The `jsonb` wire value of serialized JSON: the version byte, then the
/// JSON bytes.
pub open spec fn jsonb_framed(json: Seq<u8>) -> Seq<u8> {
    seq![JSONB_VERSION] + json
}

/// The JSON bytes of a `jsonb` wire value, or the error for any other
/// version (or an empty value).
pub open spec fn jsonb_unframed(bytes: Seq<u8>) -> Result<Seq<u8>, Seq<char>> {
    if bytes.len() > 0 && bytes[0] == JSONB_VERSION {
        Ok(bytes.skip(1))
    } else {
        Err("unsupported jsonb encoding (expected version 1)"@)
    }
}

/// Frames serialized JSON as a `jsonb` wire value.
pub fn jsonb_frame(json: &[u8]) -> (r: Vec<u8>)
    ensures
        r@ == jsonb_framed(json@),
{
    let mut r: Vec<u8> = Vec::new();
    r.push(JSONB_VERSION);
    for i in 0..json.len()
        invariant
            r@ == seq![JSONB_VERSION] + json@.take(i as int),
    {
        r.push(json[i]);
        assert(r@ =~= seq![JSONB_VERSION] + json@.take(i + 1));
    }
    assert(json@.take(json@.len() as int) =~= json@);
    r
}

/// The serialized JSON inside a `jsonb` wire value; any version but `1` is
/// refused.
pub fn jsonb_unframe(bytes: &[u8]) -> (r: Result<Vec<u8>, String>)
    ensures
        match r {
            Ok(json) => jsonb_unframed(bytes@) == Ok::<Seq<u8>, Seq<char>>(json@),
            Err(e) => jsonb_unframed(bytes@) == Err::<Seq<u8>, Seq<char>>(e@),
        },
{
    if bytes.len() > 0 && bytes[0] == JSONB_VERSION {
        let mut r: Vec<u8> = Vec::new();
        for i in 1..bytes.len()
            invariant
                1 <= bytes@.len(),
                r@ == bytes@.subrange(1, i as int),
        {
            r.push(bytes[i]);
            assert(r@ =~= bytes@.subrange(1, i + 1));
        }
        assert(bytes@.subrange(1, bytes@.len() as int) =~= bytes@.skip(1));
        Ok(r)
    } else {
        Err(String::from_str("unsupported jsonb encoding (expected version 1)"))
    }
}

/// Unframing a framed value gives the JSON back.
pub proof fn lemma_jsonb_round_trip(json: Seq<u8>)
    ensures
        jsonb_unframed(jsonb_framed(json)) == Ok::<Seq<u8>, Seq<char>>(json),
{
    assert(jsonb_framed(json).skip(1) =~= json);
}

/// Framing is undone only by its own version byte: a value unframes exactly
/// when it is the framing of what it unframes to.
pub proof fn lemma_jsonb_unframe_inverts(bytes: Seq<u8>)
    ensures
        jsonb_unframed(bytes) is Ok ==> jsonb_framed(jsonb_unframed(bytes)->Ok_0) == bytes,
{
    if bytes.len() > 0 && bytes[0] == JSONB_VERSION {
        assert(jsonb_framed(bytes.skip(1)) =~= bytes);
    }
}

// ===== Array =====

/// A portable array of `T`: a native array on PostgreSQL, a JSON array in
/// `TEXT` on SQLite. Element order is preserved.
#[derive(Debug, Clone, PartialEq, Eq, Default)]
pub struct Array<T>(pub Vec<T>);

impl<T> From<Vec<T>> for Array<T> {
    fn from(value: Vec<T>) -> (r: Self) {
        Array(value)
    }
}

impl<T> FromSpecImpl<Vec<T>> for Array<T> {
    open spec fn obeys_from_spec() -> bool {
        true
    }

    open spec fn from_spec(v: Vec<T>) -> Self {
        Array(v)
    }
}

impl<T> From<Array<T>> for Vec<T> {
    fn from(value: Array<T>) -> (r: Self) {
        value.0
    }
}

impl<T> FromSpecImpl<Array<T>> for Vec<T> {
    open spec fn obeys_from_spec() -> bool {
        true
    }

    open spec fn from_spec(v: Array<T>) -> Self {
        v.0
    }
}


// ===== Decimal =====

#[verifier::external_type_specification]
#[verifier::external_body]
pub struct ExBigDecimal(bigdecimal::BigDecimal);

/// What `BigDecimal::from_str` makes of a text: the parsed value's canonical
/// text (its `Display`), or the parse error's message.
pub uninterp spec fn decimal_parse(s: Seq<char>) -> Result<Seq<char>, Seq<char>>;

/// A canonical decimal text: one that `BigDecimal` parses back to itself.
pub open spec fn is_canonical_decimal(t: Seq<char>) -> bool {
    decimal_parse(t) == Ok::<Seq<char>, Seq<char>>(t)
}

/// `BigDecimal::from_str`, with the parsed value's `Display`. The contract
/// claims that the outcome (canonical text, or error message) is the one
/// [`decimal_parse`] names for the text, and that the canonical text is one
/// `BigDecimal` parses back to itself (its `Display` writes the digits and the
/// scale, in full or in exponent form, and parsing reads them back).
#[verifier::external_body]
fn parse_decimal(s: &str) -> (r: Result<(BigDecimal, String), String>)
    ensures
        match r {
            Ok((_, t)) => decimal_parse(s@) == Ok::<Seq<char>, Seq<char>>(t@)
                && is_canonical_decimal(t@),
            Err(e) => decimal_parse(s@) == Err::<Seq<char>, Seq<char>>(e@),
        },
{
    match <BigDecimal as std::str::FromStr>::from_str(s) {
        Ok(v) => {
            let t = v.to_string();
            Ok((v, t))
        },
        Err(e) => Err(e.to_string()),
    }
}

/// `BigDecimal`'s `Display`. The contract claims that the text is one
/// `BigDecimal` parses back to itself; which text a value gets is not stated
/// (the value is opaque here).
#[verifier::external_body]
fn decimal_display(v: &BigDecimal) -> (r: String)
    ensures
        is_canonical_decimal(r@),
{
    v.to_string()
}

/// An arbitrary-precision decimal: native `numeric` on PostgreSQL; on SQLite
/// its canonical decimal text (`BigDecimal`'s `Display`), an exact round
/// trip. The text is kept beside the value; the value itself is opaque to the
/// contracts, which speak of the text.
#[derive(Debug)]
pub struct Decimal {
    value: BigDecimal,
    text: String,
}

/// The message for a SQLite text that is not a decimal.
pub open spec fn invalid_decimal_error(s: Seq<char>, e: Seq<char>) -> Seq<char> {
    "invalid decimal "@ + str_debug(s) + ": "@ + e
}

impl Decimal {
    /// The stored text is canonical.
    #[verifier::type_invariant]
    spec fn canonical(self) -> bool {
        is_canonical_decimal(self.text@)
    }

    /// The canonical text of the value.
    pub closed spec fn text_spec(&self) -> Seq<char> {
        self.text@
    }

    /// The decimal holding `value`.
    pub fn from_value(value: BigDecimal) -> (r: Decimal)
        ensures
            is_canonical_decimal(r.text_spec()),
    {
        let text = decimal_display(&value);
        Decimal { value, text }
    }

    /// The value.
    pub fn value(&self) -> &BigDecimal {
        &self.value
    }

    /// The value, taken out.
    pub fn into_value(self) -> BigDecimal {
        self.value
    }

    /// The SQLite text: the canonical decimal text.
    /// Reading the text back gives a decimal with this same text.
    pub fn to_sqlite_text(&self) -> (r: String)
        ensures
            r@ == self.text_spec(),
            is_canonical_decimal(r@),
    {
        proof {
            use_type_invariant(self);
        }
        self.text.clone()
    }

    /// Reads a decimal back from SQLite text.
    pub fn from_sqlite_text(s: &str) -> (r: Result<Decimal, String>)
        ensures
            match r {
                Ok(d) => decimal_parse(s@) == Ok::<Seq<char>, Seq<char>>(d.text_spec()),
                Err(e) => decimal_parse(s@) is Err && e@ == invalid_decimal_error(
                    s@,
                    decimal_parse(s@)->Err_0,
                ),
            },
    {
        match parse_decimal(s) {
            Ok((value, text)) => Ok(Decimal { value, text }),
            Err(e) => {
                let mut m = String::from_str("invalid decimal ");
                let d = debug_text(s);
                m.append(d.as_str());
                m.append(": ");
                m.append(e.as_str());
                Err(m)
            },
        }
    }
}
} // verus!
