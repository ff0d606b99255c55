//! Top-level generation: every migration is split into segments, its shared
//! statements are folded into the schema model, and its `up.sql` / `down.sql`
//! are rendered for both backends.
use crate::ddl::{derive_down, derived_down, parse, parsed, rendered_up, render_up};
use crate::mapping::Backend;
use crate::model::{apply_stmt, Model, ModelTableV};
use crate::render::{lemma_apply_qualified, model_qualified, schema_rs};
use crate::segment::{segment, segment_views, segments_of, Segment, SegmentV};
use crate::sqlparse::{statements, stmt_views, StmtV};
use crate::text::{trim_end, trimmed_end};
use vstd::prelude::*;

verus! {

/// One logical migration: its directory name, `up.sql`, and `down.sql` if it
/// has one.
pub struct Migration {
    pub dir_name: String,
    pub up_sql: String,
    pub down_sql: Option<String>,
}

pub struct MigrationV {
    pub dir_name: Seq<char>,
    pub up_sql: Seq<char>,
    pub down_sql: Option<Seq<char>>,
}

impl View for Migration {
    type V = MigrationV;

    open spec fn view(&self) -> MigrationV {
        MigrationV {
            dir_name: self.dir_name@,
            up_sql: self.up_sql@,
            down_sql: match &self.down_sql {
                Some(d) => Some(d@),
                None => None,
            },
        }
    }
}

/// One migration rendered for one backend.
#[derive(Debug)]
pub struct RenderedMigration {
    pub dir_name: String,
    pub up_sql: String,
    pub down_sql: String,
}

pub struct RenderedMigrationV {
    pub dir_name: Seq<char>,
    pub up_sql: Seq<char>,
    pub down_sql: Seq<char>,
}

impl View for RenderedMigration {
    type V = RenderedMigrationV;

    open spec fn view(&self) -> RenderedMigrationV {
        RenderedMigrationV {
            dir_name: self.dir_name@,
            up_sql: self.up_sql@,
            down_sql: self.down_sql@,
        }
    }
}

pub open spec fn rendered_views(v: Seq<RenderedMigration>) -> Seq<RenderedMigrationV> {
    v.map_values(|m: RenderedMigration| m@)
}

/// Everything the generator produces: both migration trees and `schema.rs`.
#[derive(Debug)]
pub struct Generated {
    pub postgres: Vec<RenderedMigration>,
    pub sqlite: Vec<RenderedMigration>,
    pub schema_rs: String,
}

pub struct GeneratedV {
    pub postgres: Seq<RenderedMigrationV>,
    pub sqlite: Seq<RenderedMigrationV>,
    pub schema_rs: Seq<char>,
}

impl View for Generated {
    type V = GeneratedV;

    open spec fn view(&self) -> GeneratedV {
        GeneratedV {
            postgres: rendered_views(self.postgres@),
            sqlite: rendered_views(self.sqlite@),
            schema_rs: self.schema_rs@,
        }
    }
}

/// The generator's state after some migrations: the model so far and the
/// rendered migrations of each backend.
pub struct GenState {
    pub tables: Seq<ModelTableV>,
    pub postgres: Seq<RenderedMigrationV>,
    pub sqlite: Seq<RenderedMigrationV>,
}

/// An error inside migration `dir`.
pub open spec fn in_migration(dir: Seq<char>, e: Seq<char>) -> Seq<char> {
    "migration `"@ + dir + "`: "@ + e
}

/// The statements folded into the model in order, or the first error.
pub open spec fn apply_stmts(tables: Seq<ModelTableV>, stmts: Seq<StmtV>) -> Result<
    Seq<ModelTableV>,
    Seq<char>,
>
    decreases stmts.len(),
{
    if stmts.len() == 0 {
        Ok(tables)
    } else {
        match apply_stmts(tables, stmts.drop_last()) {
            Ok(t) => apply_stmt(t, stmts.last()),
            Err(e) => Err(e),
        }
    }
}

/// The shared statements of the segments folded into the model, or the first
/// parse or model error.
pub open spec fn apply_segments(tables: Seq<ModelTableV>, segs: Seq<SegmentV>) -> Result<
    Seq<ModelTableV>,
    Seq<char>,
>
    decreases segs.len(),
{
    if segs.len() == 0 {
        Ok(tables)
    } else {
        match apply_segments(tables, segs.drop_last()) {
            Err(e) => Err(e),
            Ok(t) => match segs.last() {
                SegmentV::Shared(sql) => match parsed(sql) {
                    Err(e) => Err(e),
                    Ok(stmts) => apply_stmts(t, stmts),
                },
                SegmentV::Tagged { .. } => Ok(t),
            },
        }
    }
}

/// A migration's `down.sql`: its own with trailing whitespace trimmed, or the
/// derived one.
pub open spec fn down_of(m: MigrationV, segs: Seq<SegmentV>) -> Result<Seq<char>, Seq<char>> {
    match m.down_sql {
        Some(d) => Ok(trim_end(d)),
        None => derived_down(segs),
    }
}

/// The generator's step over one migration.
pub open spec fn migration_step(st: GenState, m: MigrationV) -> Result<GenState, Seq<char>> {
    let ctx = |e: Seq<char>| in_migration(m.dir_name, e);
    match segments_of(m.up_sql) {
        Err(e) => Err(ctx(e)),
        Ok(segs) => match apply_segments(st.tables, segs) {
            Err(e) => Err(ctx(e)),
            Ok(tables) => match down_of(m, segs) {
                Err(e) => Err(ctx(e)),
                Ok(down) => match rendered_up(segs, Backend::Postgres) {
                    Err(e) => Err(ctx(e)),
                    Ok(pg) => match rendered_up(segs, Backend::Sqlite) {
                        Err(e) => Err(ctx(e)),
                        Ok(sq) => Ok(
                            GenState {
                                tables,
                                postgres: st.postgres.push(
                                    RenderedMigrationV { dir_name: m.dir_name, up_sql: pg, down_sql: down },
                                ),
                                sqlite: st.sqlite.push(
                                    RenderedMigrationV { dir_name: m.dir_name, up_sql: sq, down_sql: down },
                                ),
                            },
                        ),
                    },
                },
            },
        },
    }
}

/// The state after the migrations, in order, or the first error.
pub open spec fn generation(ms: Seq<MigrationV>) -> Result<GenState, Seq<char>>
    decreases ms.len(),
{
    if ms.len() == 0 {
        Ok(GenState { tables: Seq::empty(), postgres: Seq::empty(), sqlite: Seq::empty() })
    } else {
        match generation(ms.drop_last()) {
            Ok(st) => migration_step(st, ms.last()),
            Err(e) => Err(e),
        }
    }
}

/// What [`generate`] returns for the migrations.
pub open spec fn generated(ms: Seq<MigrationV>) -> Result<GeneratedV, Seq<char>> {
    match generation(ms) {
        Ok(st) => Ok(
            GeneratedV { postgres: st.postgres, sqlite: st.sqlite, schema_rs: schema_rs(st.tables) },
        ),
        Err(e) => Err(e),
    }
}

pub open spec fn migration_views(v: Seq<Migration>) -> Seq<MigrationV> {
    v.map_values(|m: Migration| m@)
}

proof fn lemma_apply_stmts_err(tables: Seq<ModelTableV>, stmts: Seq<StmtV>, k: int)
    requires
        0 <= k <= stmts.len(),
        apply_stmts(tables, stmts.take(k)) is Err,
    ensures
        apply_stmts(tables, stmts) == apply_stmts(tables, stmts.take(k)),
    decreases stmts.len(),
{
    if k < stmts.len() {
        assert(stmts.drop_last().take(k) =~= stmts.take(k));
        lemma_apply_stmts_err(tables, stmts.drop_last(), k);
    } else {
        assert(stmts.take(k) =~= stmts);
    }
}

proof fn lemma_apply_segments_err(tables: Seq<ModelTableV>, segs: Seq<SegmentV>, k: int)
    requires
        0 <= k <= segs.len(),
        apply_segments(tables, segs.take(k)) is Err,
    ensures
        apply_segments(tables, segs) == apply_segments(tables, segs.take(k)),
    decreases segs.len(),
{
    if k < segs.len() {
        assert(segs.drop_last().take(k) =~= segs.take(k));
        lemma_apply_segments_err(tables, segs.drop_last(), k);
    } else {
        assert(segs.take(k) =~= segs);
    }
}

proof fn lemma_generation_err(ms: Seq<MigrationV>, k: int)
    requires
        0 <= k <= ms.len(),
        generation(ms.take(k)) is Err,
    ensures
        generation(ms) == generation(ms.take(k)),
    decreases ms.len(),
{
    if k < ms.len() {
        assert(ms.drop_last().take(k) =~= ms.take(k));
        lemma_generation_err(ms.drop_last(), k);
    } else {
        assert(ms.take(k) =~= ms);
    }
}

/// `e` prefixed with the migration it occurred in.
fn in_migration_error(dir: &String, e: String) -> (r: String)
    ensures
        r@ == in_migration(dir@, e@),
{
    let mut r = String::from_str("migration `");
    r.append(dir.as_str());
    r.append("`: ");
    r.append(e.as_str());
    r
}

/// Folds the shared statements of the segments into the model.
fn apply_segments_to(model: &mut Model, segments: &Vec<Segment>) -> (r: Result<(), String>)
    requires
        model_qualified(old(model)@),
    ensures
        match r {
            Ok(_) => {
                &&& apply_segments(old(model)@, segment_views(segments@)) == Ok::<
                    Seq<ModelTableV>,
                    Seq<char>,
                >(final(model)@)
                &&& model_qualified(final(model)@)
            },
            Err(e) => apply_segments(old(model)@, segment_views(segments@)) == Err::<
                Seq<ModelTableV>,
                Seq<char>,
            >(e@),
        },
{
    let ghost start = model@;
    let ghost sv = segment_views(segments@);
    let n = segments.len();
    for i in 0..n
        invariant
            n == segments.len(),
            sv == segment_views(segments@),
            start == old(model)@,
            apply_segments(start, sv.take(i as int)) == Ok::<Seq<ModelTableV>, Seq<char>>(model@),
            model_qualified(model@),
    {
        assert(sv.take(i + 1).drop_last() =~= sv.take(i as int));
        assert(sv.take(i + 1).last() == segments@[i as int]@);
        if let Segment::Shared(sql) = &segments[i] {
            let p = match parse(sql) {
                Ok(p) => p,
                Err(e) => {
                    proof {
                        lemma_apply_segments_err(start, sv, i + 1);
                    }
                    return Err(e);
                },
            };
            let stmts = statements(&p);
            let ghost st = p.statements();
            let ghost base = model@;
            let m = stmts.len();
            for j in 0..m
                invariant
                    m == stmts.len(),
                    stmt_views(stmts@) == st,
                    i < n,
                    n == segments.len(),
                    sv == segment_views(segments@),
                    start == old(model)@,
                    apply_segments(start, sv.take(i as int)) == Ok::<Seq<ModelTableV>, Seq<char>>(
                        base,
                    ),
                    sv.take(i + 1).drop_last() == sv.take(i as int),
                    sv.take(i + 1).last() == SegmentV::Shared(sql@),
                    parsed(sql@) == Ok::<Seq<StmtV>, Seq<char>>(st),
                    apply_stmts(base, st.take(j as int)) == Ok::<Seq<ModelTableV>, Seq<char>>(
                        model@,
                    ),
                    model_qualified(model@),
            {
                assert(st.take(j + 1).drop_last() =~= st.take(j as int));
                assert(st[j as int] == stmts@[j as int]@);
                let ghost before = model@;
                match model.apply(&stmts[j]) {
                    Ok(()) => {
                        proof {
                            lemma_apply_qualified(before, st[j as int]);
                        }
                    },
                    Err(e) => {
                        proof {
                            lemma_apply_stmts_err(base, st, j + 1);
                            lemma_apply_segments_err(start, sv, i + 1);
                        }
                        return Err(e);
                    },
                }
            }
            assert(st.take(m as int) =~= st);
        }
    }
    assert(sv.take(n as int) =~= sv);
    Ok(())
}

/// Generates both migration trees and `schema.rs` from the logical
/// migrations, in order. Any error is prefixed with the migration it occurred
/// in.
pub fn generate(migrations: &[Migration]) -> (r: Result<Generated, String>)
    ensures
        match r {
            Ok(g) => generated(migration_views(migrations@)) == Ok::<GeneratedV, Seq<char>>(g@),
            Err(e) => generated(migration_views(migrations@)) == Err::<GeneratedV, Seq<char>>(e@),
        },
{
    let ghost mv = migration_views(migrations@);
    let mut model = Model::new();
    let mut postgres: Vec<RenderedMigration> = Vec::new();
    let mut sqlite: Vec<RenderedMigration> = Vec::new();
    let n = migrations.len();
    assert(rendered_views(postgres@) =~= Seq::<RenderedMigrationV>::empty());
    assert(rendered_views(sqlite@) =~= Seq::<RenderedMigrationV>::empty());
    for i in 0..n
        invariant
            n == migrations@.len(),
            mv == migration_views(migrations@),
            model_qualified(model@),
            generation(mv.take(i as int)) == Ok::<GenState, Seq<char>>(
                GenState {
                    tables: model@,
                    postgres: rendered_views(postgres@),
                    sqlite: rendered_views(sqlite@),
                },
            ),
    {
        assert(mv.take(i + 1).drop_last() =~= mv.take(i as int));
        assert(mv.take(i + 1).last() == migrations@[i as int]@);
        let m = &migrations[i];
        let segments = match segment(m.up_sql.as_str()) {
            Ok(s) => s,
            Err(e) => {
                proof {
                    lemma_generation_err(mv, i + 1);
                }
                return Err(in_migration_error(&m.dir_name, e));
            },
        };
        let ghost sv = segment_views(segments@);
        match apply_segments_to(&mut model, &segments) {
            Ok(()) => {},
            Err(e) => {
                proof {
                    lemma_generation_err(mv, i + 1);
                }
                return Err(in_migration_error(&m.dir_name, e));
            },
        }
        let down = match &m.down_sql {
            Some(d) => trimmed_end(d),
            None => match derive_down(&segments) {
                Ok(d) => d,
                Err(e) => {
                    proof {
                        lemma_generation_err(mv, i + 1);
                    }
                    return Err(in_migration_error(&m.dir_name, e));
                },
            },
        };
        assert(down_of(m@, sv) == Ok::<Seq<char>, Seq<char>>(down@));
        let pg = match render_up(&segments, Backend::Postgres) {
            Ok(s) => s,
            Err(e) => {
                proof {
                    lemma_generation_err(mv, i + 1);
                }
                return Err(in_migration_error(&m.dir_name, e));
            },
        };
        let sq = match render_up(&segments, Backend::Sqlite) {
            Ok(s) => s,
            Err(e) => {
                proof {
                    lemma_generation_err(mv, i + 1);
                }
                return Err(in_migration_error(&m.dir_name, e));
            },
        };
        let ghost pg_before = rendered_views(postgres@);
        let ghost sq_before = rendered_views(sqlite@);
        postgres.push(
            RenderedMigration { dir_name: m.dir_name.clone(), up_sql: pg, down_sql: down.clone() },
        );
        sqlite.push(RenderedMigration { dir_name: m.dir_name.clone(), up_sql: sq, down_sql: down });
        assert(rendered_views(postgres@) =~= pg_before.push(postgres@.last()@));
        assert(rendered_views(sqlite@) =~= sq_before.push(sqlite@.last()@));
    }
    assert(mv.take(n as int) =~= mv);
    let schema_rs = model.render_schema_rs();
    Ok(Generated { postgres, sqlite, schema_rs })
}


// ===== laws =====

pub open spec fn is_shared() -> spec_fn(SegmentV) -> bool {
    |s: SegmentV| s is Shared
}

/// Tagged blocks are ignored by the schema model: folding the segments gives
/// what folding only the shared ones gives.
pub proof fn lemma_tagged_blocks_ignored_by_model(tables: Seq<ModelTableV>, segs: Seq<SegmentV>)
    ensures
        apply_segments(tables, segs) == apply_segments(tables, segs.filter(is_shared())),
    decreases segs.len(),
{
    reveal(Seq::filter);
    if segs.len() > 0 {
        lemma_tagged_blocks_ignored_by_model(tables, segs.drop_last());
        let f = segs.drop_last().filter(is_shared());
        if is_shared()(segs.last()) {
            assert(segs.filter(is_shared()) == f.push(segs.last()));
            assert(f.push(segs.last()).drop_last() =~= f);
        } else {
            assert(segs.filter(is_shared()) == f);
        }
    }
}

/// Both migration trees list every migration, in order, under its own
/// directory name, and give it the same `down.sql`.
pub proof fn lemma_trees_parallel(ms: Seq<MigrationV>)
    requires
        generation(ms) is Ok,
    ensures
        generation(ms)->Ok_0.postgres.len() == ms.len(),
        generation(ms)->Ok_0.sqlite.len() == ms.len(),
        forall|i: int|
            0 <= i < ms.len() ==> {
                &&& (#[trigger] generation(ms)->Ok_0.postgres[i]).dir_name == ms[i].dir_name
                &&& generation(ms)->Ok_0.sqlite[i].dir_name == ms[i].dir_name
                &&& generation(ms)->Ok_0.postgres[i].down_sql == generation(
                    ms,
                )->Ok_0.sqlite[i].down_sql
            },
    decreases ms.len(),
{
    if ms.len() > 0 {
        lemma_trees_parallel(ms.drop_last());
        let st = generation(ms.drop_last())->Ok_0;
        let r = generation(ms)->Ok_0;
        assert forall|i: int| 0 <= i < ms.len() implies {
            &&& (#[trigger] r.postgres[i]).dir_name == ms[i].dir_name
            &&& r.sqlite[i].dir_name == ms[i].dir_name
            &&& r.postgres[i].down_sql == r.sqlite[i].down_sql
        } by {
            if i < ms.len() - 1 {
                assert(r.postgres[i] == st.postgres[i]);
                assert(r.sqlite[i] == st.sqlite[i]);
                assert(ms.drop_last()[i] == ms[i]);
            }
        }
    }
}
} // verus!
