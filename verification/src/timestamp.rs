//! The portable UTC timestamp and its SQLite encoding: fixed-format RFC 3339
//! text (`%Y-%m-%dT%H:%M:%S%.6fZ`), UTC with a `Z` suffix and exactly six
//! fractional digits, so that string order is the order of the time fields.
//!
//! The calendar arithmetic (instant to date and time of day, and the RFC 3339
//! parser) is `chrono`'s; the fixed-width text is built and proved here.
use crate::text::{debug_text, lex_le, str_debug};
use chrono::{DateTime, Datelike, Timelike, Utc};
use vstd::prelude::*;

verus! {

/// The UTC date and time of day of an instant, as `chrono`'s accessors give
/// them. A `nanosecond` of a billion or more marks a leap second.
#[derive(Clone, Copy, Debug, PartialEq, Eq)]
pub struct Civil {
    pub year: i32,
    pub month: u32,
    pub day: u32,
    pub hour: u32,
    pub minute: u32,
    pub second: u32,
    pub nanosecond: u32,
}

/// The UTC date and time of the instant `secs` seconds after the Unix epoch
/// plus `nanos` nanoseconds, as `chrono::DateTime::from_timestamp` computes
/// it; none where `chrono` refuses the pair.
pub uninterp spec fn utc_civil(secs: int, nanos: int) -> Option<Civil>;

/// The fields `chrono` documents for its accessors.
pub open spec fn civil_in_range(c: Civil) -> bool {
    &&& 1 <= c.month <= 12
    &&& 1 <= c.day <= 31
    &&& c.hour <= 23
    &&& c.minute <= 59
    &&& c.second <= 59
    &&& c.nanosecond < 2_000_000_000
}

/// `chrono::DateTime::from_timestamp(secs, nanos)`, read through its
/// `Datelike`/`Timelike` accessors. The contract claims that the result is the
/// one [`utc_civil`] names, and the accessor ranges `chrono` documents (month
/// 1 to 12, day 1 to 31, hour 0 to 23, minute and second 0 to 59, nanosecond
/// below two billion).
#[verifier::external_body]
fn civil_from_unix(secs: i64, nanos: u32) -> (r: Option<Civil>)
    ensures
        r == utc_civil(secs as int, nanos as int),
        r matches Some(c) ==> civil_in_range(c),
{
    match DateTime::from_timestamp(secs, nanos) {
        Some(dt) => Some(Civil {
            year: dt.year(), month: dt.month(), day: dt.day(), hour: dt.hour(),
            minute: dt.minute(), second: dt.second(), nanosecond: dt.nanosecond(),
        }),
        None => None,
    }
}

/// What `chrono::DateTime::parse_from_rfc3339` makes of a text, converted to
/// UTC: the instant (seconds since the epoch, nanoseconds), or the parser's
/// error message.
pub uninterp spec fn rfc3339_instant(s: Seq<char>) -> Result<(int, int), Seq<char>>;

/// `chrono::DateTime::parse_from_rfc3339`, then `with_timezone(&Utc)`, read as
/// `timestamp()` and `timestamp_subsec_nanos()`. The contract claims that the
/// outcome is the one [`rfc3339_instant`] names, and that the pair read from
/// a parsed `DateTime` is one `from_timestamp` accepts (which `chrono`
/// documents: `from_timestamp(dt.timestamp(), dt.timestamp_subsec_nanos())`
/// gives `dt` back). It claims too that the library's own text of an instant
/// in the years 0 to 9999 (valid RFC 3339, all of which `chrono` documents it
/// parses) reads back as that instant with the nanoseconds cut to whole
/// microseconds, the precision the text carries.
#[verifier::external_body]
fn parse_rfc3339(s: &str) -> (r: Result<(i64, u32), String>)
    ensures
        match r {
            Ok((secs, nanos)) => {
                &&& rfc3339_instant(s@) == Ok::<(int, int), Seq<char>>((secs as int, nanos as int))
                &&& utc_civil(secs as int, nanos as int) is Some
            },
            Err(e) => rfc3339_instant(s@) == Err::<(int, int), Seq<char>>(e@),
        },
        forall|secs: int, nanos: int|
            #![trigger utc_civil(secs, nanos)]
            i64::MIN <= secs <= i64::MAX && 0 <= nanos <= u32::MAX && utc_civil(secs, nanos) is Some
                && 0 <= utc_civil(secs, nanos)->Some_0.year <= 9999 && s@ == sqlite_text(
                utc_civil(secs, nanos)->Some_0,
            ) ==> r is Ok && r->Ok_0.0 == secs && r->Ok_0.1 == nanos - nanos % 1000,
{
    match DateTime::parse_from_rfc3339(s) {
        Ok(dt) => {
            let utc = dt.with_timezone(&Utc);
            Ok((utc.timestamp(), utc.timestamp_subsec_nanos()))
        },
        Err(e) => Err(e.to_string()),
    }
}

// ===== fixed-width decimal text =====

pub open spec fn digit(d: int) -> char {
    (48 + d) as char
}

/// The last `w` decimal digits of `n`, most significant first (zero-padded).
pub open spec fn fixed_digits(n: int, w: nat) -> Seq<char>
    decreases w,
{
    if w == 0 {
        Seq::empty()
    } else {
        fixed_digits(n / 10, (w - 1) as nat).push(digit(n % 10))
    }
}

pub open spec fn pow10(w: nat) -> int
    decreases w,
{
    if w == 0 {
        1
    } else {
        10 * pow10((w - 1) as nat)
    }
}

/// The number of decimal digits of `n` (one for zero).
pub open spec fn num_digits(n: nat) -> nat
    decreases n,
{
    if n < 10 {
        1
    } else {
        1 + num_digits(n / 10)
    }
}

/// `%Y`: a year from 0 to 9999 as four digits; any other year with its sign
/// and at least four digits.
pub open spec fn year_text(y: int) -> Seq<char> {
    if 0 <= y <= 9999 {
        fixed_digits(y, 4)
    } else {
        let a: nat = (if y < 0 {
            -y
        } else {
            y
        }) as nat;
        let w: nat = if num_digits(a) < 4 {
            4
        } else {
            num_digits(a)
        };
        seq![if y < 0 {
            '-'
        } else {
            '+'
        }] + fixed_digits(a as int, w)
    }
}

/// The numbers the text shows after the year: month, day, hour, minute,
/// second (60 on a leap second) and microseconds (truncated).
pub open spec fn time_fields(c: Civil) -> Seq<int> {
    seq![
        c.month as int,
        c.day as int,
        c.hour as int,
        c.minute as int,
        c.second + c.nanosecond / 1_000_000_000,
        ((c.nanosecond / 1000) % 1_000_000) as int,
    ]
}

/// The numbers the text shows, year first.
pub open spec fn shown_fields(c: Civil) -> Seq<int> {
    seq![c.year as int] + time_fields(c)
}

pub open spec fn time_widths() -> Seq<nat> {
    seq![2, 2, 2, 2, 2, 6]
}

/// The character after each time field.
pub open spec fn time_separators() -> Seq<char> {
    seq!['-', 'T', ':', ':', '.', 'Z']
}

/// Each field in its width, followed by its separator.
pub open spec fn encode_fields(fs: Seq<int>, ws: Seq<nat>, seps: Seq<char>) -> Seq<char>
    decreases fs.len(),
{
    if fs.len() == 0 || ws.len() == 0 || seps.len() == 0 {
        Seq::empty()
    } else {
        fixed_digits(fs[0], ws[0]).push(seps[0]) + encode_fields(
            fs.drop_first(),
            ws.drop_first(),
            seps.drop_first(),
        )
    }
}

/// `%Y-%m-%dT%H:%M:%S%.6fZ` of a UTC date and time.
pub open spec fn sqlite_text(c: Civil) -> Seq<char> {
    year_text(c.year as int).push('-') + encode_fields(time_fields(c), time_widths(), time_separators())
}

/// Lexicographic order on sequences of numbers.
pub open spec fn ints_lex_le(a: Seq<int>, b: Seq<int>) -> bool
    decreases a.len(),
{
    if a.len() == 0 {
        true
    } else if b.len() == 0 {
        false
    } else if a[0] != b[0] {
        a[0] < b[0]
    } else {
        ints_lex_le(a.drop_first(), b.drop_first())
    }
}

// ===== the ordering law =====

proof fn lemma_lex_concat(a1: Seq<char>, a2: Seq<char>, b1: Seq<char>, b2: Seq<char>)
    requires
        a1.len() == b1.len(),
    ensures
        lex_le(a1 + a2, b1 + b2) == if a1 == b1 {
            lex_le(a2, b2)
        } else {
            lex_le(a1, b1)
        },
        (a1 + a2 == b1 + b2) == (a1 == b1 && a2 == b2),
    decreases a1.len(),
{
    if a1.len() == 0 {
        assert(a1 =~= b1);
        assert(a1 + a2 =~= a2);
        assert(b1 + b2 =~= b2);
    } else {
        assert((a1 + a2).drop_first() =~= a1.drop_first() + a2);
        assert((b1 + b2).drop_first() =~= b1.drop_first() + b2);
        assert((a1 + a2)[0] == a1[0]);
        assert((b1 + b2)[0] == b1[0]);
        lemma_lex_concat(a1.drop_first(), a2, b1.drop_first(), b2);
        if a1[0] == b1[0] {
            assert(a1 == b1 <==> a1.drop_first() == b1.drop_first()) by {
                if a1.drop_first() == b1.drop_first() {
                    assert(a1 =~= seq![a1[0]] + a1.drop_first());
                    assert(b1 =~= seq![b1[0]] + b1.drop_first());
                }
            }
            assert(a1 + a2 == b1 + b2 <==> (a1 + a2).drop_first() == (b1 + b2).drop_first()) by {
                if (a1 + a2).drop_first() == (b1 + b2).drop_first() {
                    assert(a1 + a2 =~= seq![a1[0]] + (a1 + a2).drop_first());
                    assert(b1 + b2 =~= seq![b1[0]] + (b1 + b2).drop_first());
                }
            }
        } else {
            assert(a1 != b1);
            assert((a1 + a2)[0] != (b1 + b2)[0]);
        }
    }
}

proof fn lemma_digit_order(x: int, y: int)
    requires
        0 <= x < 10,
        0 <= y < 10,
    ensures
        lex_le(seq![digit(x)], seq![digit(y)]) == (x <= y),
        (digit(x) == digit(y)) == (x == y),
{
    reveal_with_fuel(lex_le, 2);
    assert(digit(x) as int == 48 + x);
    assert(digit(y) as int == 48 + y);
    assert(seq![digit(x)].drop_first() =~= Seq::<char>::empty());
    assert(seq![digit(y)].drop_first() =~= Seq::<char>::empty());
}

proof fn lemma_num_digits_bound(n: nat, k: nat)
    requires
        1 <= k,
        n < pow10(k),
    ensures
        num_digits(n) <= k,
    decreases n,
{
    if n >= 10 {
        assert(k >= 2) by {
            if k == 1 {
                assert(pow10(1) == 10 * pow10(0));
            }
        }
        let p = pow10((k - 1) as nat);
        assert(pow10(k) == 10 * p);
        assert(n / 10 < p) by (nonlinear_arith)
            requires
                n < 10 * p,
        ;
        lemma_num_digits_bound(n / 10, (k - 1) as nat);
    }
}

proof fn lemma_fixed_len(n: int, w: nat)
    ensures
        fixed_digits(n, w).len() == w,
    decreases w,
{
    if w > 0 {
        lemma_fixed_len(n / 10, (w - 1) as nat);
    }
}

proof fn lemma_fixed_digits(n: int, m: int, w: nat)
    requires
        0 <= n < pow10(w),
        0 <= m < pow10(w),
    ensures
        fixed_digits(n, w).len() == w,
        lex_le(fixed_digits(n, w), fixed_digits(m, w)) == (n <= m),
        (fixed_digits(n, w) == fixed_digits(m, w)) == (n == m),
    decreases w,
{
    if w > 0 {
        let p = pow10((w - 1) as nat);
        assert(pow10(w) == 10 * p);
        assert(0 <= n / 10 < p && 0 <= m / 10 < p && 0 <= n % 10 < 10 && 0 <= m % 10 < 10)
            by (nonlinear_arith)
            requires
                0 <= n < 10 * p,
                0 <= m < 10 * p,
        ;
        lemma_fixed_digits(n / 10, m / 10, (w - 1) as nat);
        lemma_fixed_len(n / 10, (w - 1) as nat);
        lemma_fixed_len(m / 10, (w - 1) as nat);
        lemma_fixed_len(n, w);
        let a1 = fixed_digits(n / 10, (w - 1) as nat);
        let b1 = fixed_digits(m / 10, (w - 1) as nat);
        lemma_lex_concat(a1, seq![digit(n % 10)], b1, seq![digit(m % 10)]);
        assert(fixed_digits(n, w) =~= a1 + seq![digit(n % 10)]);
        assert(fixed_digits(m, w) =~= b1 + seq![digit(m % 10)]);
        assert(seq![digit(n % 10)].drop_first() =~= Seq::<char>::empty());
        assert(seq![digit(m % 10)].drop_first() =~= Seq::<char>::empty());
        lemma_digit_order(n % 10, m % 10);
        assert(seq![digit(n % 10)] == seq![digit(m % 10)] <==> n % 10 == m % 10) by {
            if seq![digit(n % 10)] == seq![digit(m % 10)] {
                assert(seq![digit(n % 10)][0] == seq![digit(m % 10)][0]);
            }
        }
        assert((n <= m) == (n / 10 < m / 10 || (n / 10 == m / 10 && n % 10 <= m % 10)))
            by (nonlinear_arith)
            requires
                0 <= n,
                0 <= m,
        ;
        assert((n == m) == (n / 10 == m / 10 && n % 10 == m % 10)) by (nonlinear_arith)
            requires
                0 <= n,
                0 <= m,
        ;
    }
}

proof fn lemma_fixed_with_sep(n: int, m: int, w: nat, s: char)
    requires
        0 <= n < pow10(w),
        0 <= m < pow10(w),
    ensures
        fixed_digits(n, w).push(s).len() == fixed_digits(m, w).push(s).len(),
        lex_le(fixed_digits(n, w).push(s), fixed_digits(m, w).push(s)) == (n <= m),
        (fixed_digits(n, w).push(s) == fixed_digits(m, w).push(s)) == (n == m),
{
    reveal_with_fuel(lex_le, 2);
    lemma_fixed_digits(n, m, w);
    lemma_fixed_len(n, w);
    lemma_fixed_len(m, w);
    let a = fixed_digits(n, w);
    let b = fixed_digits(m, w);
    lemma_lex_concat(a, seq![s], b, seq![s]);
    assert(a.push(s) =~= a + seq![s]);
    assert(b.push(s) =~= b + seq![s]);
    assert(seq![s].drop_first() =~= Seq::<char>::empty());
}

proof fn lemma_encode_fields(a: Seq<int>, b: Seq<int>, ws: Seq<nat>, seps: Seq<char>)
    requires
        a.len() == b.len() == ws.len() == seps.len(),
        forall|i: int| 0 <= i < a.len() ==> 0 <= #[trigger] a[i] < pow10(ws[i]),
        forall|i: int| 0 <= i < b.len() ==> 0 <= #[trigger] b[i] < pow10(ws[i]),
    ensures
        encode_fields(a, ws, seps).len() == encode_fields(b, ws, seps).len(),
        lex_le(encode_fields(a, ws, seps), encode_fields(b, ws, seps)) == ints_lex_le(a, b),
        (encode_fields(a, ws, seps) == encode_fields(b, ws, seps)) == (a == b),
    decreases a.len(),
{
    if a.len() == 0 {
        assert(a =~= b);
    } else {
        assert(0 <= a[0] < pow10(ws[0]));
        assert(0 <= b[0] < pow10(ws[0]));
        lemma_fixed_with_sep(a[0], b[0], ws[0], seps[0]);
        assert forall|i: int| 0 <= i < a.drop_first().len() implies 0 <= #[trigger] a.drop_first()[i]
            < pow10(ws.drop_first()[i]) by {
            assert(0 <= a[i + 1] < pow10(ws[i + 1]));
        }
        assert forall|i: int| 0 <= i < b.drop_first().len() implies 0 <= #[trigger] b.drop_first()[i]
            < pow10(ws.drop_first()[i]) by {
            assert(0 <= b[i + 1] < pow10(ws[i + 1]));
        }
        lemma_encode_fields(a.drop_first(), b.drop_first(), ws.drop_first(), seps.drop_first());
        lemma_lex_concat(
            fixed_digits(a[0], ws[0]).push(seps[0]),
            encode_fields(a.drop_first(), ws.drop_first(), seps.drop_first()),
            fixed_digits(b[0], ws[0]).push(seps[0]),
            encode_fields(b.drop_first(), ws.drop_first(), seps.drop_first()),
        );
        assert(a == b <==> (a[0] == b[0] && a.drop_first() == b.drop_first())) by {
            if a[0] == b[0] && a.drop_first() == b.drop_first() {
                assert(a =~= seq![a[0]] + a.drop_first());
                assert(b =~= seq![b[0]] + b.drop_first());
            }
        }
    }
}

/// The SQLite text of a date and time in the years 0 to 9999 orders as its
/// fields do: string comparison (code point order, which is SQLite's `BINARY`
/// byte order on UTF-8) agrees with comparing year, month, day, hour, minute,
/// second and microsecond in turn, and two texts are equal exactly when those
/// fields are.
pub proof fn lemma_sqlite_text_order(a: Civil, b: Civil)
    requires
        civil_in_range(a),
        civil_in_range(b),
        0 <= a.year <= 9999,
        0 <= b.year <= 9999,
    ensures
        sqlite_text(a).len() == 27,
        sqlite_text(b).len() == 27,
        lex_le(sqlite_text(a), sqlite_text(b)) == ints_lex_le(shown_fields(a), shown_fields(b)),
        (sqlite_text(a) == sqlite_text(b)) == (shown_fields(a) == shown_fields(b)),
{
    reveal_with_fuel(pow10, 7);
    reveal_with_fuel(encode_fields, 7);
    reveal_with_fuel(fixed_digits, 7);
    let ws = time_widths();
    let seps = time_separators();
    let ta = time_fields(a);
    let tb = time_fields(b);
    assert(a.nanosecond / 1_000_000_000 <= 1);
    assert(b.nanosecond / 1_000_000_000 <= 1);
    assert forall|i: int| 0 <= i < ta.len() implies 0 <= #[trigger] ta[i] < pow10(ws[i]) by {}
    assert forall|i: int| 0 <= i < tb.len() implies 0 <= #[trigger] tb[i] < pow10(ws[i]) by {}
    lemma_encode_fields(ta, tb, ws, seps);
    lemma_fixed_with_sep(a.year as int, b.year as int, 4, '-');
    lemma_lex_concat(
        fixed_digits(a.year as int, 4).push('-'),
        encode_fields(ta, ws, seps),
        fixed_digits(b.year as int, 4).push('-'),
        encode_fields(tb, ws, seps),
    );
    assert(shown_fields(a).drop_first() =~= ta);
    assert(shown_fields(b).drop_first() =~= tb);
    assert(shown_fields(a) == shown_fields(b) <==> (a.year == b.year && ta == tb)) by {
        if a.year == b.year && ta == tb {
            assert(shown_fields(a) =~= shown_fields(b));
        }
        if shown_fields(a) == shown_fields(b) {
            assert(shown_fields(a)[0] == shown_fields(b)[0]);
        }
    }
    let e = encode_fields(ta, ws, seps);
    assert(e.len() == 22) by {
        reveal_with_fuel(encode_fields, 7);
    }
}

// ===== the timestamp =====

/// A UTC instant: whole seconds since the Unix epoch and the nanoseconds into
/// the second (a billion or more marks a leap second), a pair `chrono` accepts
/// as a `DateTime<Utc>`. Both backends keep microseconds; finer precision is
/// truncated on the way to SQLite.
#[derive(Clone, Copy, Debug, PartialEq, Eq, Hash)]
pub struct Timestamp {
    secs: i64,
    nanos: u32,
}

impl Timestamp {
    #[verifier::type_invariant]
    spec fn accepted(self) -> bool {
        utc_civil(self.secs as int, self.nanos as int) is Some
    }

    pub closed spec fn secs_spec(self) -> i64 {
        self.secs
    }

    pub closed spec fn nanos_spec(self) -> u32 {
        self.nanos
    }

    /// The date and time of day the timestamp falls on, in UTC.
    pub open spec fn civil(self) -> Civil {
        utc_civil(self.secs_spec() as int, self.nanos_spec() as int)->Some_0
    }

    /// The instant `secs` seconds and `nanos` nanoseconds after the Unix
    /// epoch, where `chrono` accepts the pair.
    pub fn from_unix(secs: i64, nanos: u32) -> (r: Option<Timestamp>)
        ensures
            r is Some <==> utc_civil(secs as int, nanos as int) is Some,
            r matches Some(t) ==> t.secs_spec() == secs && t.nanos_spec() == nanos,
    {
        match civil_from_unix(secs, nanos) {
            Some(_) => Some(Timestamp { secs, nanos }),
            None => None,
        }
    }

    /// Whole seconds since the Unix epoch.
    pub fn secs(&self) -> (r: i64)
        ensures
            r == self.secs_spec(),
    {
        self.secs
    }

    /// Nanoseconds into the second.
    pub fn nanos(&self) -> (r: u32)
        ensures
            r == self.nanos_spec(),
    {
        self.nanos
    }

    /// The date and time of day the timestamp falls on, in UTC.
    pub fn to_civil(&self) -> (r: Civil)
        ensures
            utc_civil(self.secs_spec() as int, self.nanos_spec() as int) == Some(r),
            r == self.civil(),
            civil_in_range(r),
    {
        proof {
            use_type_invariant(self);
        }
        match civil_from_unix(self.secs, self.nanos) {
            Some(c) => c,
            None => {
                proof {
                    assert(false);
                }
                Civil { year: 0, month: 1, day: 1, hour: 0, minute: 0, second: 0, nanosecond: 0 }
            },
        }
    }

    /// The canonical SQLite text, `%Y-%m-%dT%H:%M:%S%.6fZ`.
    pub fn to_sqlite_text(&self) -> (r: String)
        ensures
            r@ == sqlite_text(self.civil()),
    {
        let c = self.to_civil();
        let mut s = String::new();
        push_year(&mut s, c.year);
        s.push('-');
        let ghost base = s@;
        push_fixed(&mut s, c.month as u64, 2);
        s.push('-');
        push_fixed(&mut s, c.day as u64, 2);
        s.push('T');
        push_fixed(&mut s, c.hour as u64, 2);
        s.push(':');
        push_fixed(&mut s, c.minute as u64, 2);
        s.push(':');
        push_fixed(&mut s, (c.second + c.nanosecond / 1_000_000_000) as u64, 2);
        s.push('.');
        push_fixed(&mut s, ((c.nanosecond / 1000) % 1_000_000) as u64, 6);
        s.push('Z');
        proof {
            reveal_with_fuel(encode_fields, 7);
            let f = time_fields(c);
            let ws = time_widths();
            let seps = time_separators();
            assert(s@ =~= base + (fixed_digits(f[0], ws[0]).push(seps[0]) + (fixed_digits(
                f[1],
                ws[1],
            ).push(seps[1]) + (fixed_digits(f[2], ws[2]).push(seps[2]) + (fixed_digits(
                f[3],
                ws[3],
            ).push(seps[3]) + (fixed_digits(f[4], ws[4]).push(seps[4]) + (fixed_digits(
                f[5],
                ws[5],
            ).push(seps[5]) + Seq::<char>::empty())))))));
            assert(f.drop_first().drop_first().drop_first().drop_first().drop_first().drop_first()
                =~= Seq::<int>::empty());
        }
        s
    }

    /// Reads a timestamp back from SQLite text: any RFC 3339 date-time, converted
    /// to UTC.
    pub fn from_sqlite_text(s: &str) -> (r: Result<Timestamp, String>)
        ensures
            match r {
                Ok(t) => rfc3339_instant(s@) == Ok::<(int, int), Seq<char>>(
                    (t.secs_spec() as int, t.nanos_spec() as int),
                ),
                Err(e) => rfc3339_instant(s@) is Err && e@ == "invalid RFC3339 timestamp "@
                    + str_debug(s@) + ": "@ + rfc3339_instant(s@)->Err_0,
            },
            forall|secs: int, nanos: int|
                #![trigger utc_civil(secs, nanos)]
                i64::MIN <= secs <= i64::MAX && 0 <= nanos <= u32::MAX && utc_civil(secs, nanos)
                    is Some && 0 <= utc_civil(secs, nanos)->Some_0.year <= 9999 && s@ == sqlite_text(
                    utc_civil(secs, nanos)->Some_0,
                ) ==> r is Ok && r->Ok_0.secs_spec() == secs && r->Ok_0.nanos_spec() == nanos
                    - nanos % 1000,
    {
        match parse_rfc3339(s) {
            Ok((secs, nanos)) => Ok(Timestamp { secs, nanos }),
            Err(e) => {
                let mut m = String::from_str("invalid RFC3339 timestamp ");
                let d = debug_text(s);
                m.append(d.as_str());
                m.append(": ");
                m.append(e.as_str());
                Err(m)
            },
        }
    }
}

fn digit_char(d: u64) -> (r: char)
    requires
        d < 10,
    ensures
        r == digit(d as int),
{
    let b = (d as u8) + 48;
    let r = b as char;
    assert(r == (48 + d) as char);
    r
}

/// Appends the last `w` decimal digits of `n`, zero-padded.
fn push_fixed(s: &mut String, n: u64, w: usize)
    ensures
        final(s)@ == old(s)@ + fixed_digits(n as int, w as nat),
    decreases w,
{
    if w == 0 {
        assert(old(s)@ + fixed_digits(n as int, 0) =~= old(s)@);
    } else {
        push_fixed(s, n / 10, w - 1);
        s.push(digit_char(n % 10));
        assert(old(s)@ + fixed_digits(n as int, w as nat) =~= old(s)@ + fixed_digits(
            (n / 10) as int,
            (w - 1) as nat,
        ) + seq![digit((n % 10) as int)]);
    }
}

/// The number of decimal digits of `n`.
fn count_digits(n: u64) -> (r: usize)
    ensures
        r == num_digits(n as nat),
        r <= 20,
    decreases n,
{
    proof {
        reveal_with_fuel(pow10, 21);
        assert(pow10(20) == 100000000000000000000int);
        lemma_num_digits_bound(n as nat, 20);
    }
    if n < 10 {
        1
    } else {
        1 + count_digits(n / 10)
    }
}

/// Appends `%Y` of a year.
fn push_year(s: &mut String, y: i32)
    ensures
        final(s)@ == old(s)@ + year_text(y as int),
{
    if 0 <= y && y <= 9999 {
        push_fixed(s, y as u64, 4);
    } else {
        let a: u64 = if y < 0 {
            (-(y as i64)) as u64
        } else {
            y as u64
        };
        let d = count_digits(a);
        let w = if d < 4 {
            4
        } else {
            d
        };
        s.push(
            if y < 0 {
                '-'
            } else {
                '+'
            },
        );
        push_fixed(s, a, w);
        assert(final(s)@ =~= old(s)@ + year_text(y as int));
    }
}


} // verus!
