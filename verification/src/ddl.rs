//! Migration DDL per backend: each shared statement is printed back with its
//! column types replaced by the backend's native types, tagged blocks go to
//! their backend verbatim, and a missing `down.sql` is derived.
use crate::mapping::{map_type, mapping, native_of, Backend};
use crate::model::{object_ident, unmapped, last_ident};
use crate::segment::{Segment, SegmentV, segment_views};
use crate::sqlparse::{
    added_before, col_views, op_views, parse_sql, render_statement, slot_edits, sql_parse,
    sql_render,
    statements, AlterOp, AlterOpV, Column, ColumnV, ParsedSql, Stmt, StmtV, stmt_views,
};
use crate::text::{
    first_index, join, join_strings, lemma_first_index, lemma_first_index_bounds, trim, trimmed, views,
};
use vstd::prelude::*;

verus! {

// ===== native types of one statement =====

pub open spec fn natives_of(cols: Seq<ColumnV>, backend: Backend) -> Seq<Seq<char>> {
    cols.map_values(|c: ColumnV| native_of(mapping(c.ty)->Some_0, backend))
}

/// The columns an `ALTER TABLE` adds, in order.
pub open spec fn added_columns(ops: Seq<AlterOpV>) -> Seq<ColumnV>
    decreases ops.len(),
{
    if ops.len() == 0 {
        Seq::empty()
    } else {
        added_columns(ops.drop_last()) + match ops.last() {
            AlterOpV::AddColumn { column } => seq![column],
            _ => Seq::empty(),
        }
    }
}

pub open spec fn no_mapping_error(context: Seq<char>, c: ColumnV) -> Seq<char> {
    context + ": no mapping for type "@ + c.ty_debug
}

pub open spec fn create_context(table: Seq<char>, c: ColumnV) -> Seq<char> {
    "table `"@ + table + "` column `"@ + c.name_display + "`"@
}

pub open spec fn alter_context(table: Seq<char>, c: ColumnV) -> Seq<char> {
    "ALTER `"@ + table + "` ADD `"@ + c.name_display + "`"@
}

/// The native type of each column slot of a statement on `backend`, or the
/// error for the first slot whose type has no mapping.
pub open spec fn stmt_natives(s: StmtV, backend: Backend) -> Result<Seq<Seq<char>>, Seq<char>> {
    match s {
        StmtV::CreateTable { name, columns, .. } => {
            let k = first_index(columns, unmapped());
            if k < columns.len() {
                Err(no_mapping_error(create_context(object_ident(name), columns[k]), columns[k]))
            } else {
                Ok(natives_of(columns, backend))
            }
        },
        StmtV::AlterTable { name, ops } => {
            let cols = added_columns(ops);
            let k = first_index(cols, unmapped());
            if k < cols.len() {
                Err(no_mapping_error(alter_context(object_ident(name), cols[k]), cols[k]))
            } else {
                Ok(natives_of(cols, backend))
            }
        },
        StmtV::Other => Ok(Seq::empty()),
    }
}

/// The native type of one column on `backend`.
fn native_data_type(c: &Column, backend: Backend, context: &String) -> (r: Result<&'static str, String>)
    ensures
        match r {
            Ok(n) => mapping(c@.ty) is Some && n@ == native_of(mapping(c@.ty)->Some_0, backend),
            Err(e) => mapping(c@.ty) is None && e@ == no_mapping_error(context@, c@),
        },
{
    match map_type(c.ty) {
        Some(m) => Ok(m.native(backend)),
        None => {
            let mut e = context.clone();
            e.append(": no mapping for type ");
            e.append(c.ty_debug.as_str());
            Err(e)
        },
    }
}

fn context(a: &str, table: &String, b: &str, column: &String) -> (r: String)
    ensures
        r@ == a@ + table@ + b@ + column@ + "`"@,
{
    let mut r = String::from_str(a);
    r.append(table.as_str());
    r.append(b);
    r.append(column.as_str());
    r.append("`");
    r
}

/// The native type of each column slot of `stmt` on `backend`: the columns
/// of a `CREATE TABLE`, the added columns of an `ALTER TABLE`.
pub fn native_types(stmt: &Stmt, backend: Backend) -> (r: Result<Vec<String>, String>)
    ensures
        match r {
            Ok(v) => stmt_natives(stmt@, backend) == Ok::<Seq<Seq<char>>, Seq<char>>(views(v@)),
            Err(e) => stmt_natives(stmt@, backend) == Err::<Seq<Seq<char>>, Seq<char>>(e@),
        },
{
    let mut natives: Vec<String> = Vec::new();
    match stmt {
        Stmt::CreateTable { name, columns, .. } => {
            let table = last_ident(name);
            let ghost cv = col_views(columns@);
            let n = columns.len();
            for i in 0..n
                invariant
                    n == columns.len(),
                    cv == col_views(columns@),
                    table@ == object_ident(name@),
                    stmt@ matches StmtV::CreateTable { name: nm, columns: cs, .. } && nm == name@
                        && cs == cv,
                    forall|k: int| 0 <= k < i ==> !unmapped()(#[trigger] cv[k]),
                    views(natives@) == natives_of(cv.take(i as int), backend),
            {
                let c = &columns[i];
                assert(cv[i as int] == c@);
                let ctx = context("table `", &table, "` column `", &c.name_display);
                match native_data_type(c, backend, &ctx) {
                    Ok(native) => {
                        let ghost before = views(natives@);
                        let s = String::from_str(native);
                        natives.push(s);
                        assert(views(natives@) =~= before.push(s@));
                        assert(cv.take(i + 1) =~= cv.take(i as int).push(c@));
                        assert(natives_of(cv.take(i + 1), backend) =~= natives_of(
                            cv.take(i as int),
                            backend,
                        ).push(native_of(mapping(c@.ty)->Some_0, backend)));
                    },
                    Err(e) => {
                        proof {
                            lemma_first_index(cv, unmapped(), i as int);
                            assert(first_index(cv, unmapped()) == i);
                        }
                        return Err(e);
                    },
                }
            }
            proof {
                lemma_first_index(cv, unmapped(), n as int);
            }
            assert(cv.take(n as int) =~= cv);
        },
        Stmt::AlterTable { name, ops } => {
            let table = last_ident(name);
            let ghost ov = op_views(ops@);
            let ghost all = added_columns(ov);
            let n = ops.len();
            for i in 0..n
                invariant
                    n == ops.len(),
                    ov == op_views(ops@),
                    all == added_columns(ov),
                    table@ == object_ident(name@),
                    stmt@ matches StmtV::AlterTable { name: nm, ops: os } && nm == name@ && os == ov,
                    added_columns(ov.take(i as int)).len() <= all.len(),
                    added_columns(ov.take(i as int)) == all.take(
                        added_columns(ov.take(i as int)).len() as int,
                    ),
                    forall|k: int|
                        0 <= k < added_columns(ov.take(i as int)).len() ==> !unmapped()(
                            #[trigger] all[k],
                        ),
                    views(natives@) == natives_of(added_columns(ov.take(i as int)), backend),
            {
                proof {
                    lemma_added_prefix(ov, i as int);
                }
                assert(ov.take(i + 1).drop_last() =~= ov.take(i as int));
                assert(ov[i as int] == ops@[i as int]@);
                if let AlterOp::AddColumn { column } = &ops[i] {
                    let ghost prev = added_columns(ov.take(i as int));
                    assert(added_columns(ov.take(i + 1)) == prev.push(column@));
                    assert(all.take(prev.len() + 1 as int)[prev.len() as int] == all[prev.len() as int]);
                    assert(all[prev.len() as int] == column@);
                    let ctx = context("ALTER `", &table, "` ADD `", &column.name_display);
                    match native_data_type(column, backend, &ctx) {
                        Ok(native) => {
                            let ghost before = views(natives@);
                            let s = String::from_str(native);
                            natives.push(s);
                            assert(views(natives@) =~= before.push(s@));
                            assert(natives_of(prev.push(column@), backend) =~= natives_of(
                                prev,
                                backend,
                            ).push(native_of(mapping(column@.ty)->Some_0, backend)));
                            assert(views(natives@) =~= natives_of(
                                added_columns(ov.take(i + 1)),
                                backend,
                            ));
                        },
                        Err(e) => {
                            let ghost j = added_columns(ov.take(i as int)).len();
                            proof {
                                assert(all[j as int] == column@);
                                lemma_first_index(all, unmapped(), j as int);
                            }
                            return Err(e);
                        },
                    }
                }
            }
            assert(ov.take(n as int) =~= ov);
            proof {
                lemma_first_index(all, unmapped(), all.len() as int);
            }
            assert(added_columns(ov.take(n as int)) =~= all);
        },
        Stmt::Other => {
            assert(views(natives@) =~= Seq::<Seq<char>>::empty());
        },
    }
    Ok(natives)
}

/// The added columns of a prefix of the operations are a prefix of all the
/// added columns.
proof fn lemma_added_prefix(ops: Seq<AlterOpV>, i: int)
    requires
        0 <= i < ops.len(),
    ensures
        added_columns(ops.take(i + 1)) == added_columns(ops.take(i)) + match ops[i] {
            AlterOpV::AddColumn { column } => seq![column],
            _ => Seq::empty(),
        },
        added_columns(ops.take(i)).len() <= added_columns(ops.take(i + 1)).len() <= added_columns(ops).len(),
        added_columns(ops.take(i + 1)) == added_columns(ops).take(added_columns(ops.take(i + 1)).len() as int),
    decreases ops.len(),
{
    assert(ops.take(i + 1).drop_last() =~= ops.take(i));
    if i + 1 == ops.len() {
        assert(ops.take(i + 1) =~= ops);
        assert(added_columns(ops).take(added_columns(ops).len() as int) =~= added_columns(ops));
    } else {
        assert(ops.drop_last().take(i + 1) =~= ops.take(i + 1));
        assert(ops.drop_last().take(i) =~= ops.take(i));
        lemma_added_prefix(ops.drop_last(), i);
        let a = added_columns(ops.drop_last());
        let p = added_columns(ops.take(i + 1));
        assert(added_columns(ops) == a + match ops.last() {
            AlterOpV::AddColumn { column } => seq![column],
            _ => Seq::<ColumnV>::empty(),
        });
        assert(added_columns(ops).take(p.len() as int) =~= a.take(p.len() as int));
    }
}


// ===== up.sql per backend =====

/// The message of a parse error.
pub open spec fn parse_error(e: Seq<char>) -> Seq<char> {
    "SQL parse error: "@ + e
}

/// The statements of a SQL text, or the parse error message.
pub open spec fn parsed(sql: Seq<char>) -> Result<Seq<StmtV>, Seq<char>> {
    match sql_parse(sql) {
        Ok(stmts) => Ok(stmts),
        Err(e) => Err(parse_error(e)),
    }
}

/// The pieces of the first `n` statements of a shared text: each printed with
/// its native column types and a closing `;`, or the first error.
pub open spec fn stmt_pieces(sql: Seq<char>, stmts: Seq<StmtV>, backend: Backend, n: nat) -> Result<
    Seq<Seq<char>>,
    Seq<char>,
>
    decreases n,
{
    if n == 0 {
        Ok(Seq::empty())
    } else {
        match stmt_pieces(sql, stmts, backend, (n - 1) as nat) {
            Err(e) => Err(e),
            Ok(p) => match stmt_natives(stmts[n - 1], backend) {
                Err(e) => Err(e),
                Ok(natives) => Ok(
                    p.push(sql_render(sql, n - 1, slot_edits(stmts[n - 1], natives)).push(';')),
                ),
            },
        }
    }
}

/// The pieces one segment contributes to `backend`'s `up.sql`.
pub open spec fn segment_pieces(seg: SegmentV, backend: Backend) -> Result<Seq<Seq<char>>, Seq<char>> {
    match seg {
        SegmentV::Shared(sql) => match parsed(sql) {
            Err(e) => Err(e),
            Ok(stmts) => stmt_pieces(sql, stmts, backend, stmts.len()),
        },
        SegmentV::Tagged { backend: b, raw } => if b == backend {
            Ok(seq![trim(raw)])
        } else {
            Ok(Seq::empty())
        },
    }
}

/// The pieces of all segments, in order, or the first error.
pub open spec fn up_pieces(segs: Seq<SegmentV>, backend: Backend) -> Result<Seq<Seq<char>>, Seq<char>>
    decreases segs.len(),
{
    if segs.len() == 0 {
        Ok(Seq::empty())
    } else {
        match up_pieces(segs.drop_last(), backend) {
            Err(e) => Err(e),
            Ok(p) => match segment_pieces(segs.last(), backend) {
                Err(e) => Err(e),
                Ok(q) => Ok(p + q),
            },
        }
    }
}

/// `backend`'s `up.sql`: the pieces separated by blank lines.
pub open spec fn rendered_up(segs: Seq<SegmentV>, backend: Backend) -> Result<Seq<char>, Seq<char>> {
    match up_pieces(segs, backend) {
        Ok(p) => Ok(join(p, "\n\n"@)),
        Err(e) => Err(e),
    }
}

proof fn lemma_stmt_pieces_err(sql: Seq<char>, stmts: Seq<StmtV>, backend: Backend, k: nat, n: nat)
    requires
        k <= n,
        stmt_pieces(sql, stmts, backend, k) is Err,
    ensures
        stmt_pieces(sql, stmts, backend, n) == stmt_pieces(sql, stmts, backend, k),
    decreases n,
{
    if n > k {
        lemma_stmt_pieces_err(sql, stmts, backend, k, (n - 1) as nat);
    }
}

proof fn lemma_up_pieces_err(segs: Seq<SegmentV>, backend: Backend, k: int)
    requires
        0 <= k <= segs.len(),
        up_pieces(segs.take(k), backend) is Err,
    ensures
        up_pieces(segs, backend) == up_pieces(segs.take(k), backend),
    decreases segs.len(),
{
    if k < segs.len() {
        assert(segs.drop_last().take(k) =~= segs.take(k));
        lemma_up_pieces_err(segs.drop_last(), backend, k);
    } else {
        assert(segs.take(k) =~= segs);
    }
}

proof fn lemma_added_count(ops: Seq<AlterOpV>, k: int)
    requires
        0 <= k <= ops.len(),
    ensures
        added_columns(ops.take(k)).len() == added_before(ops, k),
    decreases k,
{
    if k > 0 {
        lemma_added_count(ops, k - 1);
        assert(ops.take(k).drop_last() =~= ops.take(k - 1));
        assert(ops.take(k).last() == ops[k - 1]);
    }
}

/// The native types of a statement fill its column slots exactly.
proof fn lemma_natives_fit(s: StmtV, backend: Backend, natives: Seq<Seq<char>>)
    requires
        stmt_natives(s, backend) == Ok::<Seq<Seq<char>>, Seq<char>>(natives),
    ensures
        match s {
            StmtV::CreateTable { columns, .. } => natives.len() == columns.len(),
            StmtV::AlterTable { ops, .. } => natives.len() == added_before(ops, ops.len() as int),
            StmtV::Other => true,
        },
{
    if let StmtV::AlterTable { ops, .. } = s {
        lemma_added_count(ops, ops.len() as int);
        assert(ops.take(ops.len() as int) =~= ops);
    }
}

/// A shared text parsed, with the parse error message in the generator's words.
pub(crate) fn parse(sql: &String) -> (r: Result<ParsedSql, String>)
    ensures
        match r {
            Ok(p) => {
                &&& p.wf()
                &&& p.source() == sql@
                &&& parsed(sql@) == Ok::<Seq<StmtV>, Seq<char>>(p.statements())
            },
            Err(e) => parsed(sql@) == Err::<Seq<StmtV>, Seq<char>>(e@),
        },
{
    match parse_sql(sql.as_str()) {
        Ok(p) => Ok(p),
        Err(e) => {
            let mut m = String::from_str("SQL parse error: ");
            m.append(e.as_str());
            Err(m)
        },
    }
}

/// Appends the pieces of a shared segment to `pieces`.
fn push_shared(sql: &String, backend: Backend, pieces: &mut Vec<String>) -> (r: Result<(), String>)
    ensures
        match r {
            Ok(()) => {
                &&& segment_pieces(SegmentV::Shared(sql@), backend) is Ok
                &&& views(final(pieces)@) == views(old(pieces)@) + segment_pieces(
                    SegmentV::Shared(sql@),
                    backend,
                )->Ok_0
            },
            Err(e) => segment_pieces(SegmentV::Shared(sql@), backend) == Err::<
                Seq<Seq<char>>,
                Seq<char>,
            >(e@),
        },
{
    let p = match parse(sql) {
        Ok(p) => p,
        Err(e) => return Err(e),
    };
    let stmts = statements(&p);
    let ghost sv = p.statements();
    let ghost base = views(pieces@);
    let n = stmts.len();
    for i in 0..n
        invariant
            n == stmts.len(),
            p.wf(),
            stmt_views(stmts@) == sv,
            sv == p.statements(),
            p.source() == sql@,
            parsed(sql@) == Ok::<Seq<StmtV>, Seq<char>>(sv),
            base == views(old(pieces)@),
            stmt_pieces(sql@, sv, backend, i as nat) is Ok,
            views(pieces@) == base + stmt_pieces(sql@, sv, backend, i as nat)->Ok_0,
    {
        assert(sv[i as int] == stmts@[i as int]@);
        match native_types(&stmts[i], backend) {
            Ok(natives) => {
                let ghost before = views(pieces@);
                proof {
                    lemma_natives_fit(sv[i as int], backend, views(natives@));
                }
                let mut s = render_statement(&p, i, &stmts[i], &natives);
                s.push(';');
                pieces.push(s);
                assert(views(pieces@) =~= before.push(s@));
                assert(s@ == sql_render(sql@, i as int, slot_edits(sv[i as int], views(natives@))).push(
                    ';',
                ));
                assert(base + stmt_pieces(sql@, sv, backend, (i + 1) as nat)->Ok_0 =~= (base
                    + stmt_pieces(sql@, sv, backend, i as nat)->Ok_0).push(s@));
            },
            Err(e) => {
                proof {
                    lemma_stmt_pieces_err(sql@, sv, backend, (i + 1) as nat, n as nat);
                }
                return Err(e);
            },
        }
    }
    Ok(())
}

/// `backend`'s `up.sql` for a migration's segments: shared statements printed
/// with native column types, blocks tagged for `backend` trimmed, blocks for
/// the other backend left out; pieces are separated by a blank line.
pub fn render_up(segments: &Vec<Segment>, backend: Backend) -> (r: Result<String, String>)
    ensures
        match r {
            Ok(s) => rendered_up(segment_views(segments@), backend) == Ok::<Seq<char>, Seq<char>>(
                s@,
            ),
            Err(e) => rendered_up(segment_views(segments@), backend) == Err::<Seq<char>, Seq<char>>(
                e@,
            ),
        },
{
    let ghost sv = segment_views(segments@);
    let mut pieces: Vec<String> = Vec::new();
    let n = segments.len();
    for i in 0..n
        invariant
            n == segments.len(),
            sv == segment_views(segments@),
            up_pieces(sv.take(i as int), backend) is Ok,
            views(pieces@) == up_pieces(sv.take(i as int), backend)->Ok_0,
    {
        assert(sv.take(i + 1).drop_last() =~= sv.take(i as int));
        assert(sv.take(i + 1).last() == segments@[i as int]@);
        match &segments[i] {
            Segment::Shared(sql) => {
                match push_shared(sql, backend, &mut pieces) {
                    Ok(()) => {},
                    Err(e) => {
                        proof {
                            lemma_up_pieces_err(sv, backend, i + 1);
                        }
                        return Err(e);
                    },
                }
            },
            Segment::Tagged { backend: b, raw } => {
                if *b == backend {
                    let ghost before = views(pieces@);
                    let t = trimmed(raw);
                    pieces.push(t);
                    assert(views(pieces@) =~= before + seq![t@]);
                } else {
                    assert(views(pieces@) =~= views(pieces@) + Seq::<Seq<char>>::empty());
                }
            },
        }
    }
    assert(sv.take(n as int) =~= sv);
    Ok(join_strings(&pieces, "\n\n"))
}

// ===== derived down.sql =====

/// The tables the `CREATE TABLE` statements among `stmts` create, in order.
pub open spec fn created_in(stmts: Seq<StmtV>) -> Seq<Seq<char>>
    decreases stmts.len(),
{
    if stmts.len() == 0 {
        Seq::empty()
    } else {
        created_in(stmts.drop_last()) + match stmts.last() {
            StmtV::CreateTable { name, .. } => seq![object_ident(name)],
            _ => Seq::empty(),
        }
    }
}

/// The tables created in the shared segments, in order, or the first parse
/// error.
pub open spec fn created_tables(segs: Seq<SegmentV>) -> Result<Seq<Seq<char>>, Seq<char>>
    decreases segs.len(),
{
    if segs.len() == 0 {
        Ok(Seq::empty())
    } else {
        match created_tables(segs.drop_last()) {
            Err(e) => Err(e),
            Ok(p) => match segs.last() {
                SegmentV::Shared(sql) => match parsed(sql) {
                    Err(e) => Err(e),
                    Ok(stmts) => Ok(p + created_in(stmts)),
                },
                SegmentV::Tagged { .. } => Ok(p),
            },
        }
    }
}

pub open spec fn drop_line(table: Seq<char>) -> Seq<char> {
    "DROP TABLE IF EXISTS "@ + table + ";"@
}

/// A `DROP TABLE IF EXISTS` line per table, last table first.
pub open spec fn drop_lines(tables: Seq<Seq<char>>) -> Seq<Seq<char>> {
    tables.reverse().map_values(|t: Seq<char>| drop_line(t))
}

/// The derived `down.sql`: a `DROP TABLE IF EXISTS` line per created table,
/// last created first.
pub open spec fn derived_down(segs: Seq<SegmentV>) -> Result<Seq<char>, Seq<char>> {
    match created_tables(segs) {
        Ok(tables) => Ok(join(drop_lines(tables), "\n"@)),
        Err(e) => Err(e),
    }
}

proof fn lemma_created_err(segs: Seq<SegmentV>, k: int)
    requires
        0 <= k <= segs.len(),
        created_tables(segs.take(k)) is Err,
    ensures
        created_tables(segs) == created_tables(segs.take(k)),
    decreases segs.len(),
{
    if k < segs.len() {
        assert(segs.drop_last().take(k) =~= segs.take(k));
        lemma_created_err(segs.drop_last(), k);
    } else {
        assert(segs.take(k) =~= segs);
    }
}

/// `down.sql` for a migration without one: `DROP TABLE IF EXISTS` for each
/// table its shared segments create, in reverse order.
pub fn derive_down(segments: &Vec<Segment>) -> (r: Result<String, String>)
    ensures
        match r {
            Ok(s) => derived_down(segment_views(segments@)) == Ok::<Seq<char>, Seq<char>>(s@),
            Err(e) => derived_down(segment_views(segments@)) == Err::<Seq<char>, Seq<char>>(e@),
        },
{
    let ghost sv = segment_views(segments@);
    let mut created: Vec<String> = Vec::new();
    let n = segments.len();
    for i in 0..n
        invariant
            n == segments.len(),
            sv == segment_views(segments@),
            created_tables(sv.take(i as int)) is Ok,
            views(created@) == created_tables(sv.take(i as int))->Ok_0,
    {
        assert(sv.take(i + 1).drop_last() =~= sv.take(i as int));
        assert(sv.take(i + 1).last() == segments@[i as int]@);
        if let Segment::Shared(sql) = &segments[i] {
            let p = match parse(sql) {
                Ok(p) => p,
                Err(e) => {
                    proof {
                        lemma_created_err(sv, i + 1);
                    }
                    return Err(e);
                },
            };
            let stmts = statements(&p);
            let ghost st = p.statements();
            let ghost base = views(created@);
            let m = stmts.len();
            for j in 0..m
                invariant
                    m == stmts.len(),
                    stmt_views(stmts@) == st,
                    views(created@) == base + created_in(st.take(j as int)),
            {
                assert(st.take(j + 1).drop_last() =~= st.take(j as int));
                assert(st[j as int] == stmts@[j as int]@);
                let ghost before = views(created@);
                if let Stmt::CreateTable { name, .. } = &stmts[j] {
                    let t = last_ident(name);
                    created.push(t);
                    assert(views(created@) =~= before + seq![t@]);
                } else {
                    assert(views(created@) =~= before + Seq::<Seq<char>>::empty());
                }
                assert(base + created_in(st.take(j + 1)) =~= before + created_in(st.take(j + 1))
                    .skip(created_in(st.take(j as int)).len() as int));
            }
            assert(st.take(m as int) =~= st);
        }
    }
    assert(sv.take(n as int) =~= sv);
    let ghost tables = views(created@);
    let mut lines: Vec<String> = Vec::new();
    let k = created.len();
    for j in 0..k
        invariant
            k == created.len(),
            tables == views(created@),
            views(lines@) == drop_lines(tables).take(j as int),
    {
        let mut line = String::from_str("DROP TABLE IF EXISTS ");
        line.append(created[k - 1 - j].as_str());
        line.append(";");
        let ghost before = views(lines@);
        lines.push(line);
        assert(tables.reverse()[j as int] == tables[k - 1 - j]);
        assert(tables[k - 1 - j] == created@[k - 1 - j]@);
        assert(line@ == drop_line(tables.reverse()[j as int]));
        assert(drop_lines(tables)[j as int] == drop_line(tables.reverse()[j as int]));
        assert(views(lines@) =~= before.push(line@));
        assert(drop_lines(tables).take(j + 1) =~= drop_lines(tables).take(j as int).push(
            drop_lines(tables)[j as int],
        ));
    }
    assert(drop_lines(tables).take(k as int) =~= drop_lines(tables));
    Ok(join_strings(&lines, "\n"))
}


// ===== laws =====

/// A segment that reaches `backend`: shared DDL, or a block tagged for it.
pub open spec fn reaches(backend: Backend) -> spec_fn(SegmentV) -> bool {
    |s: SegmentV|
        match s {
            SegmentV::Shared(_) => true,
            SegmentV::Tagged { backend: b, .. } => b == backend,
        }
}

/// A block tagged for the other backend contributes nothing to `backend`'s
/// `up.sql`: rendering the segments gives what rendering only the segments
/// that reach `backend` gives.
pub proof fn lemma_other_backend_blocks_ignored(segs: Seq<SegmentV>, backend: Backend)
    ensures
        up_pieces(segs, backend) == up_pieces(segs.filter(reaches(backend)), backend),
    decreases segs.len(),
{
    reveal(Seq::filter);
    if segs.len() > 0 {
        lemma_other_backend_blocks_ignored(segs.drop_last(), backend);
        let f = segs.drop_last().filter(reaches(backend));
        if reaches(backend)(segs.last()) {
            assert(segs.filter(reaches(backend)) == f.push(segs.last()));
            assert(f.push(segs.last()).drop_last() =~= f);
        } else {
            assert(segs.filter(reaches(backend)) == f);
            if let Ok(p) = up_pieces(segs.drop_last(), backend) {
                assert(p + Seq::<Seq<char>>::empty() =~= p);
            }
        }
    }
}
/// Every column definition of a statement is printed with its backend's
/// native type: each column of a `CREATE TABLE` and each column that an
/// `ALTER TABLE ... ADD COLUMN` adds gets the native type of its mapped
/// logical type, and nothing else of the statement is replaced.
pub proof fn lemma_column_types_native(s: StmtV, backend: Backend, natives: Seq<Seq<char>>)
    requires
        stmt_natives(s, backend) == Ok::<Seq<Seq<char>>, Seq<char>>(natives),
    ensures
        match s {
            StmtV::CreateTable { columns, .. } => {
                &&& forall|k: int| #[trigger] slot_edits(s, natives).contains_key(k) ==> 0 <= k < columns.len()
                &&& forall|k: int|
                    0 <= k < columns.len() ==> mapping(#[trigger] columns[k].ty) is Some
                        && slot_edits(s, natives).contains_key(k) && slot_edits(s, natives)[k]
                        == native_of(mapping(columns[k].ty)->Some_0, backend)
            },
            StmtV::AlterTable { ops, .. } => {
                &&& forall|k: int| #[trigger] slot_edits(s, natives).contains_key(k) ==> 0 <= k < ops.len()
                    && ops[k] is AddColumn
                &&& forall|k: int|
                    0 <= k < ops.len() && #[trigger] ops[k] is AddColumn ==> mapping(
                        ops[k]->AddColumn_column.ty,
                    ) is Some && slot_edits(s, natives).contains_key(k) && slot_edits(s, natives)[k]
                        == native_of(mapping(ops[k]->AddColumn_column.ty)->Some_0, backend)
            },
            StmtV::Other => slot_edits(s, natives).dom() == Set::<int>::empty(),
        },
{
    match s {
        StmtV::CreateTable { columns, .. } => {
            lemma_first_index_bounds(columns, unmapped());
            assert forall|k: int| 0 <= k < columns.len() implies mapping(#[trigger] columns[k].ty) is Some by {
                assert(!unmapped()(columns[k]));
            }
        },
        StmtV::AlterTable { ops, .. } => {
            let cols = added_columns(ops);
            lemma_first_index_bounds(cols, unmapped());
            assert forall|k: int| 0 <= k < ops.len() && #[trigger] ops[k] is AddColumn implies mapping(
                ops[k]->AddColumn_column.ty,
            ) is Some && slot_edits(s, natives).contains_key(k) && slot_edits(s, natives)[k]
                == native_of(mapping(ops[k]->AddColumn_column.ty)->Some_0, backend) by {
                lemma_added_prefix(ops, k);
                lemma_added_count(ops, k);
                let j = added_before(ops, k);
                let pre = added_columns(ops.take(k + 1));
                assert(pre[j] == ops[k]->AddColumn_column);
                assert(cols[j] == pre[j]);
                assert(!unmapped()(cols[j]));
            }
        },
        StmtV::Other => {
            assert(slot_edits(s, natives).dom() =~= Set::<int>::empty());
        },
    }
}
} // verus!
