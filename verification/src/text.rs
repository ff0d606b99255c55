//! Character-level text utilities shared by the schema generator: Unicode
//! whitespace trimming, line splitting, prefix tests, joining and ordering.
use vstd::prelude::*;
use vstd::relations::{sorted_by, total_ordering};

verus! {

/// `String::push` appends one character (as std documents it).
pub assume_specification[ String::push ](string: &mut String, ch: char)
    ensures
        final(string)@ == old(string)@.push(ch),
;

/// Unicode `White_Space`, as `char::is_whitespace` classifies it.
pub open spec fn is_ws(c: char) -> bool {
    let u = c as u32;
    ||| 0x09 <= u <= 0x0D
    ||| u == 0x20
    ||| u == 0x85
    ||| u == 0xA0
    ||| u == 0x1680
    ||| 0x2000 <= u <= 0x200A
    ||| u == 0x2028
    ||| u == 0x2029
    ||| u == 0x202F
    ||| u == 0x205F
    ||| u == 0x3000
}

/// Exec twin of [`is_ws`].
pub fn is_whitespace(c: char) -> (r: bool)
    ensures
        r == is_ws(c),
{
    let u = c as u32;
    (0x09 <= u && u <= 0x0D) || u == 0x20 || u == 0x85 || u == 0xA0 || u == 0x1680 || (0x2000 <= u
        && u <= 0x200A) || u == 0x2028 || u == 0x2029 || u == 0x202F || u == 0x205F || u == 0x3000
}


pub open spec fn trim_start(s: Seq<char>) -> Seq<char>
    decreases s.len(),
{
    if s.len() > 0 && is_ws(s[0]) {
        trim_start(s.drop_first())
    } else {
        s
    }
}

pub open spec fn trim_end(s: Seq<char>) -> Seq<char>
    decreases s.len(),
{
    if s.len() > 0 && is_ws(s.last()) {
        trim_end(s.drop_last())
    } else {
        s
    }
}

/// `str::trim`: leading and trailing Unicode whitespace removed.
pub open spec fn trim(s: Seq<char>) -> Seq<char> {
    trim_end(trim_start(s))
}

/// The bounds of `trim(s[lo..hi])` inside `s`.
pub fn trim_bounds(s: &Vec<char>, lo: usize, hi: usize) -> (r: (usize, usize))
    requires
        lo <= hi <= s.len(),
    ensures
        lo <= r.0 <= r.1 <= hi,
        s@.subrange(r.0 as int, r.1 as int) == trim(s@.subrange(lo as int, hi as int)),
{
    let mut a = lo;
    while a < hi && is_whitespace(s[a])
        invariant
            lo <= a <= hi <= s.len(),
            trim_start(s@.subrange(lo as int, hi as int)) == trim_start(
                s@.subrange(a as int, hi as int),
            ),
        decreases hi - a,
    {
        assert(s@.subrange(a as int, hi as int).drop_first() =~= s@.subrange(
            a + 1,
            hi as int,
        ));
        a = a + 1;
    }
    let b = trim_end_bound(s, a, hi);
    b
}

/// The bounds of `trim_end(s[lo..hi])` inside `s`, given `s[lo..hi]` has no
/// leading whitespace to strip (or the caller wants only the end trimmed).
fn trim_end_bound(s: &Vec<char>, a: usize, hi: usize) -> (r: (usize, usize))
    requires
        a <= hi <= s.len(),
    ensures
        r.0 == a,
        a <= r.1 <= hi,
        s@.subrange(a as int, r.1 as int) == trim_end(s@.subrange(a as int, hi as int)),
        a < hi && !is_ws(s@[a as int]) ==> trim_start(s@.subrange(a as int, hi as int))
            == s@.subrange(a as int, hi as int),
{
    let mut b = hi;
    while b > a && is_whitespace(s[b - 1])
        invariant
            a <= b <= hi <= s.len(),
            trim_end(s@.subrange(a as int, hi as int)) == trim_end(s@.subrange(a as int, b as int)),
        decreases b,
    {
        assert(s@.subrange(a as int, b as int).drop_last() =~= s@.subrange(a as int, b - 1));
        b = b - 1;
    }
    (a, b)
}

/// Bounds of `trim_end(s[lo..hi])`.
pub fn trim_end_bounds(s: &Vec<char>, lo: usize, hi: usize) -> (r: (usize, usize))
    requires
        lo <= hi <= s.len(),
    ensures
        r.0 == lo,
        lo <= r.1 <= hi,
        s@.subrange(lo as int, r.1 as int) == trim_end(s@.subrange(lo as int, hi as int)),
{
    trim_end_bound(s, lo, hi)
}


/// The characters of `s`, in order.
pub fn chars_of(s: &str) -> (r: Vec<char>)
    ensures
        r@ == s@,
{
    let n = s.unicode_len();
    let mut r: Vec<char> = Vec::new();
    for i in 0..n
        invariant
            n == s@.len(),
            r@ == s@.take(i as int),
    {
        r.push(s.get_char(i));
        assert(r@ =~= s@.take(i + 1));
    }
    assert(r@ =~= s@);
    r
}

/// The text held by a run of characters.
pub fn string_from(v: &Vec<char>, lo: usize, hi: usize) -> (r: String)
    requires
        lo <= hi <= v.len(),
    ensures
        r@ == v@.subrange(lo as int, hi as int),
{
    let mut r = String::new();
    for i in lo..hi
        invariant
            hi <= v.len(),
            r@ == v@.subrange(lo as int, i as int),
    {
        r.push(v[i]);
        assert(r@ =~= v@.subrange(lo as int, i + 1));
    }
    r
}

/// How `{:?}` prints a string (quoted, with escapes).
pub uninterp spec fn str_debug(s: Seq<char>) -> Seq<char>;

/// `<str as Debug>::fmt`, as `format!("{:?}", s)` writes it. The contract
/// names the result by [`str_debug`] and claims nothing else.
#[verifier::external_body]
pub(crate) fn debug_text(s: &str) -> (r: String)
    ensures
        r@ == str_debug(s@),
{
    format!("{:?}", s)
}

/// `a == b` on strings.
pub fn same_text(a: &str, b: &str) -> (r: bool)
    ensures
        r == (a@ == b@),
{
    String::from_str(a) == String::from_str(b)
}

/// `s.trim()` as a new string.
pub fn trimmed(s: &String) -> (r: String)
    ensures
        r@ == trim(s@),
{
    let v = chars_of(s.as_str());
    let (a, b) = trim_bounds(&v, 0, v.len());
    assert(v@.subrange(0, v.len() as int) =~= v@);
    string_from(&v, a, b)
}

/// `s.trim_end()` as a new string.
pub fn trimmed_end(s: &String) -> (r: String)
    ensures
        r@ == trim_end(s@),
{
    let v = chars_of(s.as_str());
    let (a, b) = trim_end_bounds(&v, 0, v.len());
    assert(v@.subrange(0, v.len() as int) =~= v@);
    string_from(&v, a, b)
}

/// `s` starts with `p`.
pub open spec fn starts_with(s: Seq<char>, p: Seq<char>) -> bool {
    p.len() <= s.len() && s.take(p.len() as int) == p
}

/// `s[lo..hi]` starts with the literal `lit`.
pub fn starts_with_lit(s: &Vec<char>, lo: usize, hi: usize, lit: &str) -> (r: bool)
    requires
        lo <= hi <= s.len(),
    ensures
        r == starts_with(s@.subrange(lo as int, hi as int), lit@),
{
    let m = lit.unicode_len();
    if hi - lo < m {
        return false;
    }
    let mut k: usize = 0;
    while k < m
        invariant
            lo + m <= hi <= s.len(),
            m == lit@.len(),
            k <= m,
            forall|j: int| 0 <= j < k ==> s@[lo + j] == lit@[j],
        decreases m - k,
    {
        if s[lo + k] != lit.get_char(k) {
            assert(s@.subrange(lo as int, hi as int).take(m as int)[k as int] != lit@[k as int]);
            return false;
        }
        k = k + 1;
    }
    assert(s@.subrange(lo as int, hi as int).take(m as int) =~= lit@);
    true
}

/// `s[lo..hi]` equals the literal `lit`.
pub fn eq_lit(s: &Vec<char>, lo: usize, hi: usize, lit: &str) -> (r: bool)
    requires
        lo <= hi <= s.len(),
    ensures
        r == (s@.subrange(lo as int, hi as int) == lit@),
{
    let m = lit.unicode_len();
    if hi - lo != m {
        return false;
    }
    let r = starts_with_lit(s, lo, hi, lit);
    assert(s@.subrange(lo as int, hi as int).take(m as int) =~= s@.subrange(lo as int, hi as int));
    r
}

// ===== lines =====

/// Index of the first `'\n'` at or after `i`, or `s.len()` when there is none.
pub open spec fn next_nl(s: Seq<char>, i: int) -> int
    decreases s.len() - i,
{
    if i >= s.len() {
        s.len() as int
    } else if s[i] == '\n' {
        i
    } else {
        next_nl(s, i + 1)
    }
}

pub proof fn lemma_next_nl(s: Seq<char>, i: int)
    requires
        0 <= i,
    ensures
        i < s.len() ==> i <= next_nl(s, i) <= s.len(),
        next_nl(s, i) < s.len() ==> s[next_nl(s, i)] == '\n',
        forall|k: int| i <= k < next_nl(s, i) ==> s[k] != '\n',
    decreases s.len() - i,
{
    if i < s.len() && s[i] != '\n' {
        lemma_next_nl(s, i + 1);
    }
}

/// A line's trailing `'\r'` (of a `"\r\n"` ending) removed.
pub open spec fn strip_cr(t: Seq<char>) -> Seq<char> {
    if t.len() > 0 && t.last() == '\r' {
        t.drop_last()
    } else {
        t
    }
}

/// The lines of `s` from position `i` on, as `str::lines` yields them: split
/// after each `'\n'`, the `'\n'` (and a `'\r'` before it) dropped; a final line
/// without a newline is kept as it is, and no empty line follows a final `'\n'`.
pub open spec fn lines_from(s: Seq<char>, i: int) -> Seq<Seq<char>>
    decreases s.len() - i,
{
    if i < 0 || i >= s.len() {
        Seq::empty()
    } else {
        let j = next_nl(s, i);
        proof {
            lemma_next_nl(s, i);
        }
        if j >= s.len() {
            seq![s.subrange(i, s.len() as int)]
        } else {
            seq![strip_cr(s.subrange(i, j))] + lines_from(s, j + 1)
        }
    }
}

/// `str::lines`.
pub open spec fn lines(s: Seq<char>) -> Seq<Seq<char>> {
    lines_from(s, 0)
}

/// The pieces of `s` that a list of bounds picks out.
pub open spec fn pieces(s: Seq<char>, b: Seq<(usize, usize)>) -> Seq<Seq<char>> {
    Seq::new(b.len(), |k: int| s.subrange(b[k].0 as int, b[k].1 as int))
}

/// The bounds of each line of `s`.
pub fn line_bounds(s: &Vec<char>) -> (r: Vec<(usize, usize)>)
    ensures
        forall|k: int| 0 <= k < r.len() ==> (#[trigger] r@[k]).0 <= r@[k].1 <= s.len(),
        pieces(s@, r@) == lines(s@),
{
    let n = s.len();
    let mut r: Vec<(usize, usize)> = Vec::new();
    let mut start: usize = 0;
    while start < n
        invariant
            n == s.len(),
            start <= n,
            forall|k: int| 0 <= k < r.len() ==> (#[trigger] r@[k]).0 <= r@[k].1 <= s.len(),
            lines(s@) == pieces(s@, r@) + lines_from(s@, start as int),
        decreases n - start,
    {
        let mut j = start;
        while j < n && s[j] != '\n'
            invariant
                start <= j <= n == s.len(),
                next_nl(s@, start as int) == next_nl(s@, j as int),
            decreases n - j,
        {
            j = j + 1;
        }
        proof {
            lemma_next_nl(s@, start as int);
        }
        let ghost old_r = r@;
        if j == n {
            r.push((start, n));
            assert(pieces(s@, r@) =~= pieces(s@, old_r) + lines_from(s@, start as int));
            assert(lines_from(s@, n as int) =~= Seq::<Seq<char>>::empty());
            start = n;
        } else {
            let end = if j > start && s[j - 1] == '\r' {
                j - 1
            } else {
                j
            };
            assert(s@.subrange(start as int, end as int) == strip_cr(
                s@.subrange(start as int, j as int),
            )) by {
                if j > start && s@[j - 1] == '\r' {
                    assert(s@.subrange(start as int, j as int).drop_last() =~= s@.subrange(
                        start as int,
                        j - 1,
                    ));
                }
            }
            r.push((start, end));
            assert(pieces(s@, r@) + lines_from(s@, j + 1) =~= pieces(s@, old_r) + lines_from(
                s@,
                start as int,
            ));
            start = j + 1;
        }
    }
    assert(lines_from(s@, start as int) =~= Seq::<Seq<char>>::empty());
    assert(pieces(s@, r@) + lines_from(s@, start as int) =~= pieces(s@, r@));
    r
}


/// Lines put back together, each followed by a `'\n'`.
pub open spec fn line_text(ls: Seq<Seq<char>>) -> Seq<char>
    decreases ls.len(),
{
    if ls.len() == 0 {
        Seq::empty()
    } else {
        line_text(ls.drop_last()) + ls.last() + seq!['\n']
    }
}

proof fn lemma_line_text_front(a: Seq<char>, rest: Seq<Seq<char>>)
    ensures
        line_text(seq![a] + rest) == a + seq!['\n'] + line_text(rest),
    decreases rest.len(),
{
    if rest.len() == 0 {
        assert(seq![a] + rest =~= seq![a]);
        assert(seq![a].drop_last() =~= Seq::<Seq<char>>::empty());
        assert(seq![a].last() == a);
        assert(line_text(Seq::<Seq<char>>::empty()) == Seq::<char>::empty());
        assert(line_text(seq![a]) == line_text(Seq::<Seq<char>>::empty()) + a + seq!['\n']);
        assert(a + seq!['\n'] + Seq::<char>::empty() =~= Seq::<char>::empty() + a + seq!['\n']);
    } else {
        lemma_line_text_front(a, rest.drop_last());
        assert((seq![a] + rest).drop_last() =~= seq![a] + rest.drop_last());
        assert((seq![a] + rest).last() == rest.last());
        assert(a + seq!['\n'] + line_text(rest.drop_last()) + rest.last() + seq!['\n'] =~= a + seq![
            '\n',
        ] + (line_text(rest.drop_last()) + rest.last() + seq!['\n']));
    }
}

proof fn lemma_line_text_from(s: Seq<char>, i: int)
    requires
        0 <= i <= s.len(),
        forall|k: int| 0 <= k < s.len() ==> s[k] != '\r',
    ensures
        line_text(lines_from(s, i)) == if i == s.len() {
            Seq::<char>::empty()
        } else if s.last() == '\n' {
            s.subrange(i, s.len() as int)
        } else {
            s.subrange(i, s.len() as int) + seq!['\n']
        },
    decreases s.len() - i,
{
    if i < s.len() {
        let j = next_nl(s, i);
        lemma_next_nl(s, i);
        if j >= s.len() {
            let u = s.subrange(i, s.len() as int);
            assert(lines_from(s, i) == seq![u]);
            assert(seq![u].drop_last() =~= Seq::<Seq<char>>::empty());
            assert(seq![u].last() == u);
            assert(line_text(Seq::<Seq<char>>::empty()) == Seq::<char>::empty());
            assert(line_text(seq![u]) == line_text(Seq::<Seq<char>>::empty()) + u + seq!['\n']);
            assert(Seq::<char>::empty() + s.subrange(i, s.len() as int) =~= s.subrange(i, s.len() as int));
            assert(s.last() == s[s.len() - 1]);
        } else {
            let t = s.subrange(i, j);
            assert(lines_from(s, i) == seq![strip_cr(t)] + lines_from(s, j + 1));
            assert(strip_cr(t) == t) by {
                if t.len() > 0 {
                    assert(t.last() == s[j - 1]);
                }
            }
            lemma_line_text_front(t, lines_from(s, j + 1));
            lemma_line_text_from(s, j + 1);
            if j + 1 == s.len() {
                assert(t + seq!['\n'] + Seq::<char>::empty() =~= s.subrange(i, s.len() as int));
            } else if s.last() == '\n' {
                assert(t + seq!['\n'] + s.subrange(j + 1, s.len() as int) =~= s.subrange(i, s.len() as int));
            } else {
                assert(t + seq!['\n'] + (s.subrange(j + 1, s.len() as int) + seq!['\n']) =~= s.subrange(
                    i,
                    s.len() as int,
                ) + seq!['\n']);
            }
        }
    } else {
        assert(lines_from(s, i) == Seq::<Seq<char>>::empty());
        assert(line_text(Seq::<Seq<char>>::empty()) == Seq::<char>::empty());
    }
}

/// Without `'\r'`, the lines of a text put back together give the text,
/// with a final `'\n'` added when it lacks one.
pub proof fn lemma_line_text_of_lines(s: Seq<char>)
    requires
        forall|k: int| 0 <= k < s.len() ==> s[k] != '\r',
    ensures
        line_text(lines(s)) == if s.len() == 0 || s.last() == '\n' {
            s
        } else {
            s + seq!['\n']
        },
{
    lemma_line_text_from(s, 0);
    assert(s.subrange(0, s.len() as int) =~= s);
}


// ===== joining =====

/// The views of a list of strings.
pub open spec fn views(v: Seq<String>) -> Seq<Seq<char>> {
    v.map_values(|x: String| x@)
}

/// `parts.join(sep)`.
pub open spec fn join(parts: Seq<Seq<char>>, sep: Seq<char>) -> Seq<char>
    decreases parts.len(),
{
    if parts.len() == 0 {
        Seq::empty()
    } else if parts.len() == 1 {
        parts[0]
    } else {
        join(parts.drop_last(), sep) + sep + parts.last()
    }
}

/// `parts.join(sep)` for a list of strings.
pub fn join_strings(parts: &Vec<String>, sep: &str) -> (r: String)
    ensures
        r@ == join(views(parts@), sep@),
{
    let mut r = String::new();
    let n = parts.len();
    for i in 0..n
        invariant
            n == parts.len(),
            r@ == join(views(parts@).take(i as int), sep@),
    {
        let ghost before = views(parts@).take(i as int);
        if i > 0 {
            r.append(sep);
        }
        r.append(parts[i].as_str());
        assert(views(parts@).take(i + 1).drop_last() =~= before);
    }
    assert(views(parts@).take(n as int) =~= views(parts@));
    r
}

// ===== lexicographic order =====

/// Lexicographic order by code point (the order `str`'s `Ord` gives, since
/// UTF-8 byte order agrees with code point order).
pub open spec fn lex_le(a: Seq<char>, b: Seq<char>) -> bool
    decreases a.len(),
{
    if a.len() == 0 {
        true
    } else if b.len() == 0 {
        false
    } else if a[0] != b[0] {
        a[0] < b[0]
    } else {
        lex_le(a.drop_first(), b.drop_first())
    }
}

pub open spec fn lex_leq() -> spec_fn(Seq<char>, Seq<char>) -> bool {
    |a: Seq<char>, b: Seq<char>| lex_le(a, b)
}

proof fn lemma_lex_refl(a: Seq<char>)
    ensures
        lex_le(a, a),
    decreases a.len(),
{
    if a.len() > 0 {
        lemma_lex_refl(a.drop_first());
    }
}

proof fn lemma_lex_antisym(a: Seq<char>, b: Seq<char>)
    requires
        lex_le(a, b),
        lex_le(b, a),
    ensures
        a == b,
    decreases a.len(),
{
    if a.len() > 0 && b.len() > 0 {
        if a[0] == b[0] {
            lemma_lex_antisym(a.drop_first(), b.drop_first());
            assert(a.len() == a.drop_first().len() + 1);
            assert(b.len() == b.drop_first().len() + 1);
            assert forall|i: int| 0 <= i < a.len() implies a[i] == b[i] by {
                if i > 0 {
                    assert(a[i] == a.drop_first()[i - 1]);
                    assert(b[i] == b.drop_first()[i - 1]);
                }
            }
            assert(a =~= b);
        }
    } else {
        assert(a =~= b);
    }
}

proof fn lemma_lex_trans(a: Seq<char>, b: Seq<char>, c: Seq<char>)
    requires
        lex_le(a, b),
        lex_le(b, c),
    ensures
        lex_le(a, c),
    decreases a.len(),
{
    if a.len() > 0 && b.len() > 0 && c.len() > 0 {
        if a[0] == b[0] && b[0] == c[0] {
            lemma_lex_trans(a.drop_first(), b.drop_first(), c.drop_first());
        }
    }
}

proof fn lemma_lex_total(a: Seq<char>, b: Seq<char>)
    ensures
        lex_le(a, b) || lex_le(b, a),
    decreases a.len(),
{
    if a.len() > 0 && b.len() > 0 {
        if a[0] == b[0] {
            lemma_lex_total(a.drop_first(), b.drop_first());
        }
    }
}

/// Lexicographic order is a total order.
pub proof fn lemma_lex_total_ordering()
    ensures
        total_ordering(lex_leq()),
{
    let leq = lex_leq();
    assert forall|x: Seq<char>| #[trigger] leq(x, x) by {
        lemma_lex_refl(x);
    }
    assert forall|x: Seq<char>, y: Seq<char>| #[trigger] leq(x, y) && #[trigger] leq(y, x) implies x
        == y by {
        lemma_lex_antisym(x, y);
    }
    assert forall|x: Seq<char>, y: Seq<char>, z: Seq<char>| #[trigger] leq(x, y) && #[trigger] leq(
        y,
        z,
    ) implies leq(x, z) by {
        lemma_lex_trans(x, y, z);
    }
    assert forall|x: Seq<char>, y: Seq<char>| #[trigger] leq(x, y) || #[trigger] leq(y, x) by {
        lemma_lex_total(x, y);
    }
}

/// `lex_le(a, b)` on character vectors.
pub fn lex_le_chars(a: &Vec<char>, b: &Vec<char>) -> (r: bool)
    ensures
        r == lex_le(a@, b@),
{
    let mut i: usize = 0;
    assert(a@.skip(0) =~= a@ && b@.skip(0) =~= b@);
    while i < a.len() && i < b.len() && a[i] == b[i]
        invariant
            i <= a.len(),
            i <= b.len(),
            lex_le(a@, b@) == lex_le(a@.skip(i as int), b@.skip(i as int)),
        decreases a.len() - i,
    {
        assert(a@.skip(i as int).drop_first() =~= a@.skip(i + 1));
        assert(b@.skip(i as int).drop_first() =~= b@.skip(i + 1));
        i = i + 1;
    }
    if i == a.len() {
        true
    } else if i == b.len() {
        false
    } else {
        assert(a@.skip(i as int)[0] == a@[i as int]);
        assert(b@.skip(i as int)[0] == b@[i as int]);
        a[i] < b[i]
    }
}

/// `v` sorted in lexicographic order (`sort_unstable` on strings).
pub fn sort_strings(v: Vec<String>) -> (r: Vec<String>)
    ensures
        views(r@) == views(v@).sort_by(lex_leq()),
{
    broadcast use vstd::seq_lib::group_to_multiset_ensures;
    broadcast use vstd::multiset::group_multiset_axioms;

    proof {
        lemma_lex_total_ordering();
    }
    let leq = Ghost(lex_leq());
    let mut r: Vec<String> = Vec::new();
    let mut keys: Vec<Vec<char>> = Vec::new();
    let n = v.len();
    for i in 0..n
        invariant
            n == v.len(),
            total_ordering(leq@),
            leq@ == lex_leq(),
            keys.len() == r.len(),
            forall|k: int| 0 <= k < r.len() ==> (#[trigger] keys@[k])@ == r@[k]@,
            sorted_by(views(r@), leq@),
            views(r@).to_multiset() == views(v@).take(i as int).to_multiset(),
    {
        let key = chars_of(v[i].as_str());
        let mut k: usize = 0;
        while k < r.len() && lex_le_chars(&keys[k], &key)
            invariant
                k <= r.len() == keys.len(),
                forall|j: int| 0 <= j < keys.len() ==> (#[trigger] keys@[j])@ == r@[j]@,
                forall|j: int| 0 <= j < k ==> lex_le(#[trigger] views(r@)[j], key@),
            decreases r.len() - k,
        {
            k = k + 1;
        }
        let ghost old_view = views(r@);
        let ghost x = key@;
        assert(x == views(v@)[i as int]);
        proof {
            if k < r.len() {
                lemma_lex_total(old_view[k as int], x);
            }
        }
        r.insert(k, v[i].clone());
        keys.insert(k, key);
        assert(views(r@) =~= old_view.insert(k as int, x));
        proof {
            let nv = views(r@);
            assert forall|a: int, b: int| 0 <= a < b < nv.len() implies #[trigger] leq@(
                nv[a],
                nv[b],
            ) by {
                if a < k && b == k {
                } else if a == k && b == k + 1 {
                } else if a == k && b > k + 1 {
                    assert(leq@(old_view[k as int], old_view[b - 1]));
                    lemma_lex_trans(x, old_view[k as int], old_view[b - 1]);
                } else if a < k && b > k {
                    assert(leq@(old_view[a], old_view[b - 1]));
                } else if b < k {
                    assert(leq@(old_view[a], old_view[b]));
                } else {
                    assert(leq@(old_view[a - 1], old_view[b - 1]));
                }
            }
            let pre = old_view.take(k as int);
            let post = old_view.skip(k as int);
            assert(old_view.insert(k as int, x) =~= pre.push(x) + post);
            assert(old_view =~= pre + post);
            vstd::seq_lib::lemma_multiset_commutative(pre.push(x), post);
            vstd::seq_lib::lemma_multiset_commutative(pre, post);
            assert(views(v@).take(i + 1) =~= views(v@).take(i as int).push(x));
            pre.to_multiset_ensures();
            views(v@).take(i as int).to_multiset_ensures();
            assert(pre.push(x).to_multiset() == pre.to_multiset().insert(x));
            assert(nv.to_multiset() =~= pre.to_multiset().insert(x).add(post.to_multiset()));
            assert(views(v@).take(i + 1).to_multiset() == views(v@).take(i as int).to_multiset().insert(x));
            assert(nv.to_multiset() =~= views(v@).take(i + 1).to_multiset());
        }
    }
    proof {
        assert(views(v@).take(n as int) =~= views(v@));
        views(v@).lemma_sort_by_ensures(leq@);
        vstd::seq_lib::lemma_sorted_unique(views(r@), views(v@).sort_by(leq@), leq@);
    }
    r
}


// ===== searching and folding =====

/// The index of the first element of `s` that satisfies `p`, or `s.len()`.
pub open spec fn first_index<A>(s: Seq<A>, p: spec_fn(A) -> bool) -> int
    decreases s.len(),
{
    if s.len() == 0 {
        0
    } else if p(s[0]) {
        0
    } else {
        1 + first_index(s.drop_first(), p)
    }
}

pub proof fn lemma_first_index<A>(s: Seq<A>, p: spec_fn(A) -> bool, i: int)
    requires
        0 <= i <= s.len(),
        forall|k: int| 0 <= k < i ==> !p(#[trigger] s[k]),
        i == s.len() || p(s[i]),
    ensures
        first_index(s, p) == i,
    decreases i,
{
    if i > 0 {
        assert forall|k: int| 0 <= k < i - 1 implies !p(#[trigger] s.drop_first()[k]) by {
            assert(s.drop_first()[k] == s[k + 1]);
        }
        if i < s.len() {
            assert(s.drop_first()[i - 1] == s[i]);
        }
        lemma_first_index(s.drop_first(), p, i - 1);
    }
}

pub proof fn lemma_first_index_bounds<A>(s: Seq<A>, p: spec_fn(A) -> bool)
    ensures
        0 <= first_index(s, p) <= s.len(),
        forall|k: int| 0 <= k < first_index(s, p) ==> !p(#[trigger] s[k]),
        first_index(s, p) < s.len() ==> p(s[first_index(s, p)]),
    decreases s.len(),
{
    if s.len() > 0 && !p(s[0]) {
        lemma_first_index_bounds(s.drop_first(), p);
        assert forall|k: int| 0 <= k < first_index(s, p) implies !p(#[trigger] s[k]) by {
            if k > 0 {
                assert(s[k] == s.drop_first()[k - 1]);
            }
        }
    }
}

/// A left fold whose step keeps an error once one occurs stops at the error:
/// folding the whole sequence gives what folding up to the error gave.
pub proof fn lemma_fold_keeps_err<A, M, E>(
    s: Seq<A>,
    i: int,
    init: Result<M, E>,
    f: spec_fn(Result<M, E>, A) -> Result<M, E>,
)
    requires
        0 <= i <= s.len(),
        s.take(i).fold_left(init, f) is Err,
        forall|e: E, a: A| #[trigger] f(Err(e), a) == Err::<M, E>(e),
    ensures
        s.fold_left(init, f) == s.take(i).fold_left(init, f),
    decreases s.len(),
{
    if i == s.len() {
        assert(s.take(i) =~= s);
    } else {
        assert(s.drop_last().take(i) =~= s.take(i));
        lemma_fold_keeps_err(s.drop_last(), i, init, f);
        let e = s.take(i).fold_left(init, f)->Err_0;
        assert(f(Err(e), s.last()) == Err::<M, E>(e));
    }
}

} // verus!
