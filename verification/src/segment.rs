//! The escape hatch: logical DDL is split into shared chunks and blocks tagged
//! for one backend (`-- dualdb:postgres` / `-- dualdb:sqlite` ... `-- dualdb:end`).
use crate::mapping::Backend;
use crate::text::{
    chars_of, eq_lit, lemma_fold_keeps_err, lemma_line_text_of_lines, line_bounds, line_text, lines,
    pieces, starts_with, starts_with_lit, trim, trim_bounds,
};
use vstd::prelude::*;

verus! {

/// A piece of a migration's `up.sql`.
pub enum Segment {
    /// Logical DDL shared by both backends.
    Shared(String),
    /// Raw DDL for one backend only.
    Tagged { backend: Backend, raw: String },
}

pub enum SegmentV {
    Shared(Seq<char>),
    Tagged { backend: Backend, raw: Seq<char> },
}

impl View for Segment {
    type V = SegmentV;

    open spec fn view(&self) -> SegmentV {
        match self {
            Segment::Shared(s) => SegmentV::Shared(s@),
            Segment::Tagged { backend, raw } => SegmentV::Tagged { backend: *backend, raw: raw@ },
        }
    }
}

pub open spec fn segment_views(v: Seq<Segment>) -> Seq<SegmentV> {
    v.map_values(|s: Segment| s@)
}

/// The splitter's state between lines: the finished segments, the shared text
/// so far, and the open tagged block if any.
pub struct SegState {
    pub segments: Seq<SegmentV>,
    pub shared: Seq<char>,
    pub tagged: Option<(Backend, Seq<char>)>,
}

/// The directive a line holds: the trimmed line minus `-- dualdb:`, trimmed.
pub open spec fn directive(line: Seq<char>) -> Option<Seq<char>> {
    let t = trim(line);
    if starts_with(t, "-- dualdb:"@) {
        Some(trim(t.skip("-- dualdb:"@.len() as int)))
    } else {
        None
    }
}

/// The segments with the shared text closed off, unless it is blank.
pub open spec fn flush(segments: Seq<SegmentV>, shared: Seq<char>) -> Seq<SegmentV> {
    if trim(shared).len() != 0 {
        segments.push(SegmentV::Shared(shared))
    } else {
        segments
    }
}

pub open spec fn unknown_directive_error(d: Seq<char>) -> Seq<char> {
    "unknown directive `-- dualdb:"@ + d + "`"@
}

/// One line of `up.sql`.
pub open spec fn seg_line(st: SegState, line: Seq<char>) -> Result<SegState, Seq<char>> {
    match directive(line) {
        Some(d) => if d == "postgres"@ || d == "sqlite"@ {
            if st.tagged is Some {
                Err("nested `-- dualdb:` block"@)
            } else {
                let backend = if d == "postgres"@ {
                    Backend::Postgres
                } else {
                    Backend::Sqlite
                };
                Ok(
                    SegState {
                        segments: flush(st.segments, st.shared),
                        shared: Seq::empty(),
                        tagged: Some((backend, Seq::empty())),
                    },
                )
            }
        } else if d == "end"@ {
            match st.tagged {
                None => Err("`-- dualdb:end` without an open block"@),
                Some((backend, raw)) => Ok(
                    SegState {
                        segments: st.segments.push(SegmentV::Tagged { backend, raw }),
                        shared: st.shared,
                        tagged: None,
                    },
                ),
            }
        } else {
            Err(unknown_directive_error(d))
        },
        None => match st.tagged {
            Some((backend, raw)) => Ok(
                SegState {
                    segments: st.segments,
                    shared: st.shared,
                    tagged: Some((backend, raw + line + seq!['\n'])),
                },
            ),
            None => Ok(
                SegState { segments: st.segments, shared: st.shared + line + seq!['\n'], tagged: None },
            ),
        },
    }
}

pub open spec fn seg_step() -> spec_fn(Result<SegState, Seq<char>>, Seq<char>) -> Result<
    SegState,
    Seq<char>,
> {
    |acc: Result<SegState, Seq<char>>, line: Seq<char>|
        match acc {
            Ok(st) => seg_line(st, line),
            Err(e) => Err(e),
        }
}

pub open spec fn seg_init() -> Result<SegState, Seq<char>> {
    Ok(SegState { segments: Seq::empty(), shared: Seq::empty(), tagged: None })
}

/// `up.sql` split into shared chunks and tagged blocks: an open block at the
/// end is an error, and blank shared text makes no segment.
pub open spec fn segments_of(sql: Seq<char>) -> Result<Seq<SegmentV>, Seq<char>> {
    match lines(sql).fold_left(seg_init(), seg_step()) {
        Err(e) => Err(e),
        Ok(st) => if st.tagged is Some {
            Err("unclosed `-- dualdb:` block (missing `-- dualdb:end`)"@)
        } else {
            Ok(flush(st.segments, st.shared))
        },
    }
}

pub open spec fn tagged_view(t: Option<(Backend, Vec<char>)>) -> Option<(Backend, Seq<char>)> {
    match t {
        Some((b, raw)) => Some((b, raw@)),
        None => None,
    }
}

/// `v` followed by the characters of `s[lo..hi]` and a newline.
fn push_line(v: &mut Vec<char>, s: &Vec<char>, lo: usize, hi: usize)
    requires
        lo <= hi <= s.len(),
    ensures
        final(v)@ == old(v)@ + s@.subrange(lo as int, hi as int) + seq!['\n'],
{
    for i in lo..hi
        invariant
            hi <= s.len(),
            v@ == old(v)@ + s@.subrange(lo as int, i as int),
    {
        v.push(s[i]);
        assert(v@ =~= old(v)@ + s@.subrange(lo as int, i + 1));
    }
    v.push('\n');
}

fn text(v: &Vec<char>) -> (r: String)
    ensures
        r@ == v@,
{
    let r = crate::text::string_from(v, 0, v.len());
    assert(v@.subrange(0, v@.len() as int) =~= v@);
    r
}

/// Whether the characters are blank (all whitespace).
fn blank(v: &Vec<char>) -> (r: bool)
    ensures
        r == (trim(v@).len() == 0),
{
    let (a, b) = trim_bounds(v, 0, v.len());
    assert(v@.subrange(0, v@.len() as int) =~= v@);
    a == b
}

/// Splits logical DDL into shared chunks and per-backend tagged blocks.
pub fn segment(sql: &str) -> (r: Result<Vec<Segment>, String>)
    ensures
        match r {
            Ok(segs) => segments_of(sql@) == Ok::<Seq<SegmentV>, Seq<char>>(segment_views(segs@)),
            Err(e) => segments_of(sql@) == Err::<Seq<SegmentV>, Seq<char>>(e@),
        },
{
    let s = chars_of(sql);
    let bounds = line_bounds(&s);
    let ghost ls = lines(s@);
    let mut segments: Vec<Segment> = Vec::new();
    let mut shared: Vec<char> = Vec::new();
    let mut tagged: Option<(Backend, Vec<char>)> = None;
    let n = bounds.len();
    let ghost f = seg_step();
    assert(ls.take(0).fold_left(seg_init(), f) == seg_init());
    assert(segment_views(segments@) =~= Seq::<SegmentV>::empty());
    for k in 0..n
        invariant
            n == bounds.len(),
            s@ == sql@,
            ls == lines(s@),
            ls == pieces(s@, bounds@),
            f == seg_step(),
            forall|j: int| 0 <= j < bounds.len() ==> (#[trigger] bounds@[j]).0 <= bounds@[j].1 <= s.len(),
            ls.take(k as int).fold_left(seg_init(), f) == Ok::<SegState, Seq<char>>(
                SegState {
                    segments: segment_views(segments@),
                    shared: shared@,
                    tagged: tagged_view(tagged),
                },
            ),
    {
        let ghost st = SegState {
            segments: segment_views(segments@),
            shared: shared@,
            tagged: tagged_view(tagged),
        };
        let (lo, hi) = bounds[k];
        let ghost line = s@.subrange(lo as int, hi as int);
        assert(ls[k as int] == line);
        assert(ls.take(k + 1).drop_last() =~= ls.take(k as int));
        assert(ls.take(k + 1).fold_left(seg_init(), f) == seg_line(st, line));
        let (a, b) = trim_bounds(&s, lo, hi);
        let prefix_len = "-- dualdb:".unicode_len();
        if starts_with_lit(&s, a, b, "-- dualdb:") {
            let (c, d) = trim_bounds(&s, a + prefix_len, b);
            assert(s@.subrange(a as int, b as int).skip(prefix_len as int) =~= s@.subrange(
                a + prefix_len,
                b as int,
            ));
            assert(directive(line) == Some(s@.subrange(c as int, d as int)));
            if eq_lit(&s, c, d, "postgres") || eq_lit(&s, c, d, "sqlite") {
                if tagged.is_some() {
                    proof {
                        lemma_fold_keeps_err(ls, k + 1, seg_init(), f);
                    }
                    return Err(String::from_str("nested `-- dualdb:` block"));
                }
                if !blank(&shared) {
                    let ghost before = segment_views(segments@);
                    let chunk = Segment::Shared(text(&shared));
                    segments.push(chunk);
                    assert(segment_views(segments@) =~= before.push(chunk@));
                }
                shared = Vec::new();
                let backend = if eq_lit(&s, c, d, "postgres") {
                    Backend::Postgres
                } else {
                    Backend::Sqlite
                };
                tagged = Some((backend, Vec::new()));
                assert(shared@ =~= Seq::<char>::empty());
            } else if eq_lit(&s, c, d, "end") {
                match tagged {
                    None => {
                        proof {
                            lemma_fold_keeps_err(ls, k + 1, seg_init(), f);
                        }
                        return Err(String::from_str("`-- dualdb:end` without an open block"));
                    },
                    Some((backend, raw)) => {
                        let ghost before = segment_views(segments@);
                        let block = Segment::Tagged { backend, raw: text(&raw) };
                        segments.push(block);
                        assert(segment_views(segments@) =~= before.push(block@));
                        tagged = None;
                    },
                }
            } else {
                let mut e = String::from_str("unknown directive `-- dualdb:");
                let other = crate::text::string_from(&s, c, d);
                e.append(other.as_str());
                e.append("`");
                proof {
                    lemma_fold_keeps_err(ls, k + 1, seg_init(), f);
                }
                return Err(e);
            }
        } else {
            assert(directive(line) is None);
            match tagged {
                Some((backend, mut raw)) => {
                    push_line(&mut raw, &s, lo, hi);
                    tagged = Some((backend, raw));
                },
                None => {
                    push_line(&mut shared, &s, lo, hi);
                },
            }
        }
    }
    assert(ls.take(n as int) =~= ls);
    if tagged.is_some() {
        return Err(String::from_str("unclosed `-- dualdb:` block (missing `-- dualdb:end`)"));
    }
    if !blank(&shared) {
        let ghost before = segment_views(segments@);
        let chunk = Segment::Shared(text(&shared));
        segments.push(chunk);
        assert(segment_views(segments@) =~= before.push(chunk@));
    }
    Ok(segments)
}

/// Lines without a directive go, one after another and each followed by its
/// `'\n'`, to the open tagged block if there is one, else to the shared text.
proof fn lemma_plain_lines(st: SegState, ls: Seq<Seq<char>>)
    requires
        forall|k: int| 0 <= k < ls.len() ==> directive(#[trigger] ls[k]) is None,
    ensures
        ls.fold_left(Ok::<SegState, Seq<char>>(st), seg_step()) == Ok::<SegState, Seq<char>>(
            match st.tagged {
                None => SegState {
                    segments: st.segments,
                    shared: st.shared + line_text(ls),
                    tagged: None,
                },
                Some((b, raw)) => SegState {
                    segments: st.segments,
                    shared: st.shared,
                    tagged: Some((b, raw + line_text(ls))),
                },
            },
        ),
    decreases ls.len(),
{
    if ls.len() == 0 {
        assert(st.shared + Seq::<char>::empty() =~= st.shared);
        if let Some((b, raw)) = st.tagged {
            assert(raw + Seq::<char>::empty() =~= raw);
        }
    } else {
        let d = ls.drop_last();
        assert forall|k: int| 0 <= k < d.len() implies directive(#[trigger] d[k]) is None by {
            assert(d[k] == ls[k]);
        }
        lemma_plain_lines(st, d);
        assert(directive(ls[ls.len() - 1]) is None);
        assert(st.shared + line_text(d) + ls.last() + seq!['\n'] =~= st.shared + (line_text(d)
            + ls.last() + seq!['\n']));
        if let Some((b, raw)) = st.tagged {
            assert(raw + line_text(d) + ls.last() + seq!['\n'] =~= raw + (line_text(d) + ls.last()
                + seq!['\n']));
        }
    }
}

/// A migration without `-- dualdb:` directives is one shared segment: its
/// lines, each followed by a newline (none when that text is blank). Without
/// `'\r'` in it, that text is the migration itself, with a final newline added
/// when it lacks one.
pub proof fn lemma_plain_text_one_segment(sql: Seq<char>)
    requires
        forall|k: int| 0 <= k < lines(sql).len() ==> directive(#[trigger] lines(sql)[k]) is None,
    ensures
        segments_of(sql) == Ok::<Seq<SegmentV>, Seq<char>>(
            if trim(line_text(lines(sql))).len() != 0 {
                seq![SegmentV::Shared(line_text(lines(sql)))]
            } else {
                Seq::empty()
            },
        ),
        (forall|k: int| 0 <= k < sql.len() ==> sql[k] != '\r') ==> line_text(lines(sql)) == if sql.len()
            == 0 || sql.last() == '\n' {
            sql
        } else {
            sql + seq!['\n']
        },
{
    let st = SegState { segments: Seq::empty(), shared: Seq::empty(), tagged: None };
    lemma_plain_lines(st, lines(sql));
    assert(Seq::<char>::empty() + line_text(lines(sql)) =~= line_text(lines(sql)));
    assert(Seq::<SegmentV>::empty().push(SegmentV::Shared(line_text(lines(sql)))) =~= seq![
        SegmentV::Shared(line_text(lines(sql))),
    ]);
    if forall|k: int| 0 <= k < sql.len() ==> sql[k] != '\r' {
        lemma_line_text_of_lines(sql);
    }
}

/// A block opened by `-- dualdb:postgres` (or `-- dualdb:sqlite`) and closed
/// by `-- dualdb:end` is one segment tagged for that backend, whose raw text is
/// the lines between, each followed by a newline.
pub proof fn lemma_tagged_block(sql: Seq<char>)
    requires
        lines(sql).len() >= 2,
        directive(lines(sql)[0]) == Some("postgres"@) || directive(lines(sql)[0]) == Some("sqlite"@),
        directive(lines(sql).last()) == Some("end"@),
        forall|k: int| 0 < k < lines(sql).len() - 1 ==> directive(#[trigger] lines(sql)[k]) is None,
    ensures
        segments_of(sql) == Ok::<Seq<SegmentV>, Seq<char>>(
            seq![
                SegmentV::Tagged {
                    backend: if directive(lines(sql)[0]) == Some("postgres"@) {
                        Backend::Postgres
                    } else {
                        Backend::Sqlite
                    },
                    raw: line_text(lines(sql).subrange(1, lines(sql).len() - 1)),
                },
            ],
        ),
{
    reveal_strlit("postgres");
    reveal_strlit("sqlite");
    reveal_strlit("end");
    let ls = lines(sql);
    let n = ls.len() as int;
    let f = seg_step();
    let b = if directive(ls[0]) == Some("postgres"@) {
        Backend::Postgres
    } else {
        Backend::Sqlite
    };
    let body = ls.subrange(1, n - 1);
    ls.lemma_fold_left_split(seg_init(), f, 1);
    let head = ls.subrange(0, 1);
    assert(head.drop_last() =~= Seq::<Seq<char>>::empty());
    assert(head.last() == ls[0]);
    assert(trim(Seq::<char>::empty()) == Seq::<char>::empty());
    let st1 = SegState { segments: Seq::empty(), shared: Seq::empty(), tagged: Some((b, Seq::empty())) };
    let st0 = SegState { segments: Seq::empty(), shared: Seq::empty(), tagged: None };
    assert(Seq::<Seq<char>>::empty().fold_left(seg_init(), f) == seg_init());
    assert(head.fold_left(seg_init(), f) == f(seg_init(), ls[0]));
    assert(flush(Seq::empty(), Seq::empty()) =~= Seq::<SegmentV>::empty());
    assert(seg_line(st0, ls[0]) == Ok::<SegState, Seq<char>>(st1));
    assert(head.fold_left(seg_init(), f) == Ok::<SegState, Seq<char>>(st1));
    let st2 = SegState { segments: Seq::empty(), shared: Seq::empty(), tagged: Some((b, line_text(body))) };
    let m = ls.subrange(1, n);
    assert(m.drop_last() =~= body);
    assert(m.last() == ls.last());
    assert(m.fold_left(Ok::<SegState, Seq<char>>(st1), f) == f(
        body.fold_left(Ok::<SegState, Seq<char>>(st1), f),
        ls.last(),
    ));
    assert forall|k: int| 0 <= k < body.len() implies directive(#[trigger] body[k]) is None by {
        assert(body[k] == ls[k + 1]);
    }
    lemma_plain_lines(st1, body);
    assert(Seq::<char>::empty() + line_text(body) =~= line_text(body));
    assert(body.fold_left(Ok::<SegState, Seq<char>>(st1), f) == Ok::<SegState, Seq<char>>(st2));
    let tagged = seq![SegmentV::Tagged { backend: b, raw: line_text(body) }];
    assert(Seq::<SegmentV>::empty().push(SegmentV::Tagged { backend: b, raw: line_text(body) }) =~= tagged);
    let st3 = SegState { segments: tagged, shared: Seq::empty(), tagged: None };
    assert("end"@.len() == 3 && "postgres"@.len() == 8 && "sqlite"@.len() == 6);
    assert("end"@ != "postgres"@ && "end"@ != "sqlite"@);
    assert(seg_line(st2, ls.last()) == Ok::<SegState, Seq<char>>(st3));
    assert(ls.fold_left(seg_init(), f) == Ok::<SegState, Seq<char>>(st3));
    assert(flush(tagged, Seq::empty()) == tagged);
}

} // verus!
