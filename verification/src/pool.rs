//! Backend detection for connection pooling: which backend a database URL
//! refers to, and the connection manager's plain configuration.
use crate::text::{chars_of, starts_with, trim, trim_bounds};
use vstd::prelude::*;

verus! {

#[verifier::external_type_specification]
#[verifier::external_body]
pub struct ExPoolError(diesel::r2d2::PoolError);

/// Which backend a URL refers to.
#[derive(Debug, Clone, Copy, PartialEq, Eq, Structural)]
pub enum Backend {
    Postgres,
    Sqlite,
}

/// `char::to_ascii_lowercase`.
pub open spec fn ascii_lower(c: char) -> char {
    if 'A' <= c <= 'Z' {
        ((c as u32) + 32) as char
    } else {
        c
    }
}

/// `str::to_ascii_lowercase`.
pub open spec fn lower(s: Seq<char>) -> Seq<char> {
    s.map_values(|c: char| ascii_lower(c))
}

/// `p` occurs in `s`.
pub open spec fn contains(s: Seq<char>, p: Seq<char>) -> bool {
    exists|i: int| 0 <= i && i + p.len() <= s.len() && #[trigger] s.subrange(i, i + p.len()) == p
}

/// The backend a URL refers to: `postgres://` / `postgresql://` is Postgres;
/// `sqlite://`, `file:`, `:memory:` or a bare path is SQLite; any other
/// explicit scheme is none. The URL is trimmed and compared without regard to
/// ASCII case.
pub open spec fn detected(url: Seq<char>) -> Option<Backend> {
    let l = lower(trim(url));
    if starts_with(l, "postgres://"@) || starts_with(l, "postgresql://"@) {
        Some(Backend::Postgres)
    } else if starts_with(l, "sqlite://"@) || starts_with(l, "file:"@) || l == ":memory:"@ {
        Some(Backend::Sqlite)
    } else if contains(l, "://"@) {
        None
    } else {
        Some(Backend::Sqlite)
    }
}

fn lower_char(c: char) -> (r: char)
    ensures
        r == ascii_lower(c),
{
    if 'A' <= c && c <= 'Z' {
        let b = (c as u8) + 32;
        let r = b as char;
        assert(r == ((c as u32) + 32) as char);
        r
    } else {
        c
    }
}

/// `v[lo..hi]` starts with `lit`.
fn has_prefix(v: &Vec<char>, lit: &str) -> (r: bool)
    ensures
        r == starts_with(v@, lit@),
{
    let p = chars_of(lit);
    if p.len() > v.len() {
        return false;
    }
    let mut k: usize = 0;
    while k < p.len()
        invariant
            p@ == lit@,
            p.len() <= v.len(),
            k <= p.len(),
            forall|j: int| 0 <= j < k ==> v@[j] == p@[j],
        decreases p.len() - k,
    {
        if v[k] != p[k] {
            assert(v@.take(p@.len() as int)[k as int] != p@[k as int]);
            return false;
        }
        k = k + 1;
    }
    assert(v@.take(p@.len() as int) =~= p@);
    true
}

/// `v` holds exactly `lit`.
fn is_exactly(v: &Vec<char>, lit: &str) -> (r: bool)
    ensures
        r == (v@ == lit@),
{
    let p = chars_of(lit);
    if p.len() != v.len() {
        return false;
    }
    let r = has_prefix(v, lit);
    assert(v@.take(p@.len() as int) =~= v@);
    r
}

/// `lit` occurs in `v`.
fn occurs(v: &Vec<char>, lit: &str) -> (r: bool)
    ensures
        r == contains(v@, lit@),
{
    let p = chars_of(lit);
    if p.len() > v.len() {
        assert(!contains(v@, lit@));
        return false;
    }
    let last = v.len() - p.len();
    let mut i: usize = 0;
    while i <= last
        invariant
            p@ == lit@,
            last == v.len() - p.len(),
            i <= last + 1,
            forall|j: int| 0 <= j < i ==> #[trigger] v@.subrange(j, j + p@.len()) != p@,
        decreases last + 1 - i,
    {
        let mut k: usize = 0;
        let mut same = true;
        while k < p.len()
            invariant
                p@ == lit@,
                i <= last,
                last == v.len() - p.len(),
                k <= p.len(),
                same == (forall|j: int| 0 <= j < k ==> v@[i + j] == p@[j]),
            decreases p.len() - k,
        {
            if v[i + k] != p[k] {
                same = false;
            }
            k = k + 1;
        }
        if same {
            assert(v@.subrange(i as int, i + p@.len()) =~= p@);
            return true;
        }
        assert(v@.subrange(i as int, i + p@.len())[0] == v@[i as int]);
        assert(exists|j: int| 0 <= j < p@.len() && v@[i + j] != p@[j]);
        let ghost j = choose|j: int| 0 <= j < p@.len() && v@[i + j] != p@[j];
        assert(v@.subrange(i as int, i + p@.len())[j] != p@[j]);
        i = i + 1;
    }
    assert forall|j: int| 0 <= j && j + lit@.len() <= v@.len() implies #[trigger] v@.subrange(
        j,
        j + lit@.len(),
    ) != lit@ by {
        assert(j < i);
    }
    false
}

/// Detects the backend from a database URL.
///
/// - `postgres://` / `postgresql://` → [`Backend::Postgres`]
/// - `sqlite://`, `file:`, `:memory:`, or a bare path → [`Backend::Sqlite`]
/// - any other scheme (`mysql://`, …) → `None`
pub fn detect_backend(url: &str) -> (r: Option<Backend>)
    ensures
        r == detected(url@),
{
    let s = chars_of(url);
    let (a, b) = trim_bounds(&s, 0, s.len());
    assert(s@.subrange(0, s@.len() as int) =~= s@);
    let mut l: Vec<char> = Vec::new();
    for i in a..b
        invariant
            a <= b <= s.len(),
            l@ == lower(s@.subrange(a as int, i as int)),
    {
        l.push(lower_char(s[i]));
        assert(l@ =~= lower(s@.subrange(a as int, i + 1)));
    }
    assert(l@ == lower(trim(url@)));
    if has_prefix(&l, "postgres://") || has_prefix(&l, "postgresql://") {
        Some(Backend::Postgres)
    } else if has_prefix(&l, "sqlite://") || has_prefix(&l, "file:") || is_exactly(&l, ":memory:") {
        Some(Backend::Sqlite)
    } else if occurs(&l, "://") {
        None
    } else {
        Some(Backend::Sqlite)
    }
}

/// `url` without a leading `sqlite://`, the form SQLite opens (a bare path or
/// a `file:` URI).
pub open spec fn sqlite_path_of(url: Seq<char>) -> Seq<char> {
    if starts_with(url, "sqlite://"@) {
        url.skip("sqlite://"@.len() as int)
    } else {
        url
    }
}

/// Errors from pool construction and checkout.
#[derive(Debug)]
pub enum Error {
    /// The URL's scheme didn't match a known backend.
    UnknownUrl(String),
    /// An r2d2 build/checkout error (includes the underlying connection error).
    Pool(diesel::r2d2::PoolError),
}

/// The configuration of a connection manager that establishes a fixed
/// backend: the URL and the backend detected from it.
#[derive(Debug, Clone)]
pub struct DualConnectionManager {
    url: String,
    backend: Backend,
}

impl DualConnectionManager {
    pub closed spec fn url_spec(&self) -> Seq<char> {
        self.url@
    }

    pub closed spec fn backend_spec(&self) -> Backend {
        self.backend
    }

    /// Builds a manager, detecting the backend from `url`.
    pub fn new(url: &str) -> (r: Result<Self, Error>)
        ensures
            match r {
                Ok(m) => detected(url@) == Some(m.backend_spec()) && m.url_spec() == url@,
                Err(e) => detected(url@) is None && (e matches Error::UnknownUrl(u) && u@ == url@),
            },
    {
        match detect_backend(url) {
            Some(backend) => Ok(DualConnectionManager { url: url.to_string(), backend }),
            None => Err(Error::UnknownUrl(url.to_string())),
        }
    }

    /// The URL the manager connects to.
    pub fn url(&self) -> (r: &str)
        ensures
            r@ == self.url_spec(),
    {
        self.url.as_str()
    }

    /// The backend the manager establishes.
    pub fn backend(&self) -> (r: Backend)
        ensures
            r == self.backend_spec(),
    {
        self.backend
    }

    /// What a SQLite connection opens: the URL without its `sqlite://` scheme.
    pub fn sqlite_path(&self) -> (r: String)
        ensures
            r@ == sqlite_path_of(self.url_spec()),
    {
        let s = chars_of(self.url.as_str());
        if has_prefix(&s, "sqlite://") {
            let p = chars_of("sqlite://");
            let mut r = String::new();
            for i in p.len()..s.len()
                invariant
                    p@ == "sqlite://"@,
                    p.len() <= s.len(),
                    s@ == self.url@,
                    r@ == s@.subrange(p.len() as int, i as int),
            {
                r.push(s[i]);
                assert(r@ =~= s@.subrange(p.len() as int, i + 1));
            }
            assert(s@.subrange(p.len() as int, s.len() as int) =~= s@.skip(p.len() as int));
            r
        } else {
            self.url.clone()
        }
    }
}

/// The schemes name their backend: a URL whose trimmed, ASCII-lowercased form
/// starts with `sqlite://` or `file:`, or is `:memory:`, is SQLite; one that
/// starts with `postgres://` or `postgresql://` is PostgreSQL.
pub proof fn lemma_scheme_backends(url: Seq<char>)
    ensures
        starts_with(lower(trim(url)), "file:"@) ==> detected(url) == Some(Backend::Sqlite),
        starts_with(lower(trim(url)), "sqlite://"@) ==> detected(url) == Some(Backend::Sqlite),
        lower(trim(url)) == ":memory:"@ ==> detected(url) == Some(Backend::Sqlite),
        starts_with(lower(trim(url)), "postgres://"@) || starts_with(lower(trim(url)), "postgresql://"@)
            ==> detected(url) == Some(Backend::Postgres),
{
    reveal_strlit("file:");
    reveal_strlit("sqlite://");
    reveal_strlit(":memory:");
    reveal_strlit("postgres://");
    reveal_strlit("postgresql://");
    let l = lower(trim(url));
    if l.len() > 0 {
        if starts_with(l, "postgres://"@) {
            assert(l[0] == l.take(11)[0]);
        }
        if starts_with(l, "postgresql://"@) {
            assert(l[0] == l.take(13)[0]);
        }
        if starts_with(l, "file:"@) {
            assert(l[0] == l.take(5)[0]);
        }
        if starts_with(l, "sqlite://"@) {
            assert(l[0] == l.take(9)[0]);
        }
        if l == ":memory:"@ {
            assert(l[0] == ':');
        }
    }
}

} // verus!
