//! The `schema.rs` model: the tables, columns, primary keys and foreign keys
//! that the shared statements of the migrations define, folded in order.
use crate::mapping::{map_type, mapping};
use crate::sqlparse::{
    col_views, con_views, op_views, opt_views, AlterOp, AlterOpV, Column, ColumnOpt, ColumnOptV,
    ColumnV, Constraint, ConstraintV, ObjName, ObjNameV, Stmt, StmtV,
};
use crate::text::{
    first_index, lemma_first_index, lemma_first_index_bounds, lemma_fold_keeps_err, views,
};
use vstd::prelude::*;

verus! {

pub struct ModelColumn {
    pub name: String,
    pub marker: &'static str,
    pub nullable: bool,
}

pub struct ModelColumnV {
    pub name: Seq<char>,
    pub marker: Seq<char>,
    pub nullable: bool,
}

impl View for ModelColumn {
    type V = ModelColumnV;

    open spec fn view(&self) -> ModelColumnV {
        ModelColumnV { name: self.name@, marker: self.marker@, nullable: self.nullable }
    }
}

pub struct ModelTable {
    pub name: String,
    pub columns: Vec<ModelColumn>,
    pub primary_key: Vec<String>,
    /// (local column, parent table)
    pub foreign_keys: Vec<(String, String)>,
}

pub struct ModelTableV {
    pub name: Seq<char>,
    pub columns: Seq<ModelColumnV>,
    pub primary_key: Seq<Seq<char>>,
    pub foreign_keys: Seq<(Seq<char>, Seq<char>)>,
}

pub open spec fn pair_views(v: Seq<(String, String)>) -> Seq<(Seq<char>, Seq<char>)> {
    v.map_values(|p: (String, String)| (p.0@, p.1@))
}

pub open spec fn column_views(v: Seq<ModelColumn>) -> Seq<ModelColumnV> {
    v.map_values(|c: ModelColumn| c@)
}

impl View for ModelTable {
    type V = ModelTableV;

    open spec fn view(&self) -> ModelTableV {
        ModelTableV {
            name: self.name@,
            columns: column_views(self.columns@),
            primary_key: views(self.primary_key@),
            foreign_keys: pair_views(self.foreign_keys@),
        }
    }
}

pub open spec fn table_views(v: Seq<ModelTable>) -> Seq<ModelTableV> {
    v.map_values(|t: ModelTable| t@)
}

/// The schema model: the tables in creation order.
pub struct Model {
    pub tables: Vec<ModelTable>,
}

impl View for Model {
    type V = Seq<ModelTableV>;

    open spec fn view(&self) -> Seq<ModelTableV> {
        table_views(self.tables@)
    }
}

// ===== what a statement does to the model =====

/// Last identifier of a (possibly schema-qualified) object name.
pub open spec fn object_ident(n: ObjNameV) -> Seq<char> {
    if n.parts.len() > 0 {
        n.parts.last()
    } else {
        n.display
    }
}

pub open spec fn is_primary(o: ColumnOptV) -> bool {
    o matches ColumnOptV::Unique { is_primary: true }
}

/// A created column is nullable unless it is `NOT NULL` or `PRIMARY KEY`.
pub open spec fn col_nullable(c: ColumnV) -> bool {
    forall|k: int|
        0 <= k < c.options.len() ==> !(#[trigger] c.options[k] is NotNull) && !is_primary(
            c.options[k],
        )
}

/// The column's name once per `PRIMARY KEY` option.
pub open spec fn pk_marks(name: Seq<char>, opts: Seq<ColumnOptV>) -> Seq<Seq<char>>
    decreases opts.len(),
{
    if opts.len() == 0 {
        Seq::empty()
    } else {
        pk_marks(name, opts.drop_last()) + if is_primary(opts.last()) {
            seq![name]
        } else {
            Seq::empty()
        }
    }
}

/// (column, parent table) once per `REFERENCES` option.
pub open spec fn fk_marks(name: Seq<char>, opts: Seq<ColumnOptV>) -> Seq<(Seq<char>, Seq<char>)>
    decreases opts.len(),
{
    if opts.len() == 0 {
        Seq::empty()
    } else {
        fk_marks(name, opts.drop_last()) + match opts.last() {
            ColumnOptV::ForeignKey { foreign_table } => seq![(name, object_ident(foreign_table))],
            _ => Seq::empty(),
        }
    }
}

pub open spec fn columns_pk(cols: Seq<ColumnV>) -> Seq<Seq<char>>
    decreases cols.len(),
{
    if cols.len() == 0 {
        Seq::empty()
    } else {
        columns_pk(cols.drop_last()) + pk_marks(cols.last().name, cols.last().options)
    }
}

pub open spec fn columns_fks(cols: Seq<ColumnV>) -> Seq<(Seq<char>, Seq<char>)>
    decreases cols.len(),
{
    if cols.len() == 0 {
        Seq::empty()
    } else {
        columns_fks(cols.drop_last()) + fk_marks(cols.last().name, cols.last().options)
    }
}

/// The primary key after the table constraints: the last `PRIMARY KEY (..)`
/// constraint replaces it.
pub open spec fn constraints_pk(pk: Seq<Seq<char>>, cons: Seq<ConstraintV>) -> Seq<Seq<char>>
    decreases cons.len(),
{
    if cons.len() == 0 {
        pk
    } else {
        match cons.last() {
            ConstraintV::PrimaryKey { columns } => columns,
            _ => constraints_pk(pk, cons.drop_last()),
        }
    }
}

pub open spec fn fk_pairs(columns: Seq<Seq<char>>, parent: Seq<char>) -> Seq<(Seq<char>, Seq<char>)> {
    columns.map_values(|c: Seq<char>| (c, parent))
}

/// (column, parent table) for each column of each `FOREIGN KEY` constraint.
pub open spec fn constraints_fks(cons: Seq<ConstraintV>) -> Seq<(Seq<char>, Seq<char>)>
    decreases cons.len(),
{
    if cons.len() == 0 {
        Seq::empty()
    } else {
        constraints_fks(cons.drop_last()) + match cons.last() {
            ConstraintV::ForeignKey { columns, foreign_table } => fk_pairs(
                columns,
                object_ident(foreign_table),
            ),
            _ => Seq::empty(),
        }
    }
}

pub open spec fn unmapped() -> spec_fn(ColumnV) -> bool {
    |c: ColumnV| mapping(c.ty) is None
}

pub open spec fn model_column(c: ColumnV) -> ModelColumnV {
    ModelColumnV { name: c.name, marker: mapping(c.ty)->Some_0.marker, nullable: col_nullable(c) }
}

pub open spec fn model_columns(cols: Seq<ColumnV>) -> Seq<ModelColumnV> {
    cols.map_values(|c: ColumnV| model_column(c))
}

pub open spec fn create_table_error(table: Seq<char>, c: ColumnV) -> Seq<char> {
    "table `"@ + table + "`, column `"@ + c.name_display + "`: no mapping for type "@ + c.ty_debug
}

/// `CREATE TABLE`: a new table with every column mapped, or the error for the
/// first column whose type has no mapping.
pub open spec fn create_table(
    tables: Seq<ModelTableV>,
    name: ObjNameV,
    cols: Seq<ColumnV>,
    cons: Seq<ConstraintV>,
) -> Result<Seq<ModelTableV>, Seq<char>> {
    let table = object_ident(name);
    let k = first_index(cols, unmapped());
    if k < cols.len() {
        Err(create_table_error(table, cols[k]))
    } else {
        Ok(
            tables.push(
                ModelTableV {
                    name: table,
                    columns: model_columns(cols),
                    primary_key: constraints_pk(columns_pk(cols), cons),
                    foreign_keys: columns_fks(cols) + constraints_fks(cons),
                },
            ),
        )
    }
}

pub open spec fn named(table: Seq<char>) -> spec_fn(ModelTableV) -> bool {
    |t: ModelTableV| t.name == table
}

/// The first table with this name, or `tables.len()`.
pub open spec fn find_table(tables: Seq<ModelTableV>, table: Seq<char>) -> int {
    first_index(tables, named(table))
}

pub open spec fn has_not_null(c: ColumnV) -> bool {
    exists|k: int| 0 <= k < c.options.len() && #[trigger] c.options[k] is NotNull
}

pub open spec fn with_fks(t: ModelTableV, fks: Seq<(Seq<char>, Seq<char>)>) -> ModelTableV {
    ModelTableV {
        name: t.name,
        columns: t.columns,
        primary_key: t.primary_key,
        foreign_keys: fks,
    }
}

/// The table with `column` added and its foreign keys extended by `fks`.
pub open spec fn with_added_column(
    t: ModelTableV,
    column: ModelColumnV,
    fks: Seq<(Seq<char>, Seq<char>)>,
) -> ModelTableV {
    ModelTableV {
        name: t.name,
        columns: t.columns.push(column),
        primary_key: t.primary_key,
        foreign_keys: t.foreign_keys + fks,
    }
}

pub open spec fn not_key(name: Seq<char>) -> spec_fn(Seq<char>) -> bool {
    |c: Seq<char>| c != name
}

pub open spec fn not_from(name: Seq<char>) -> spec_fn((Seq<char>, Seq<char>)) -> bool {
    |p: (Seq<char>, Seq<char>)| p.0 != name
}

/// The table without the columns named `name`, and without that name in its
/// primary key and its foreign keys.
pub open spec fn without_column(t: ModelTableV, name: Seq<char>) -> ModelTableV {
    ModelTableV {
        name: t.name,
        columns: t.columns.filter(not_named(name)),
        primary_key: t.primary_key.filter(not_key(name)),
        foreign_keys: t.foreign_keys.filter(not_from(name)),
    }
}

pub open spec fn alter_add_error(table: Seq<char>, c: ColumnV) -> Seq<char> {
    "ALTER `"@ + table + "` ADD `"@ + c.name_display + "`: no mapping for type "@ + c.ty_debug
}

pub open spec fn unknown_table_error(table: Seq<char>) -> Seq<char> {
    "ALTER on unknown table `"@ + table + "`"@
}

pub open spec fn not_named(name: Seq<char>) -> spec_fn(ModelColumnV) -> bool {
    |c: ModelColumnV| c.name != name
}

/// One `ALTER TABLE` operation on table `table`. `ADD COLUMN` needs a mapped
/// type and an existing table, and records the column's `REFERENCES` as
/// foreign keys; `DROP COLUMN` removes every column of that name, and that
/// name from the primary key and the foreign keys; `ADD FOREIGN KEY` records
/// the keys; on an unknown table the last two change nothing.
pub open spec fn alter_op(tables: Seq<ModelTableV>, table: Seq<char>, op: AlterOpV) -> Result<
    Seq<ModelTableV>,
    Seq<char>,
> {
    let i = find_table(tables, table);
    match op {
        AlterOpV::AddColumn { column } => match mapping(column.ty) {
            None => Err(alter_add_error(table, column)),
            Some(m) => if i < tables.len() {
                Ok(
                    tables.update(
                        i,
                        with_added_column(
                            tables[i],
                            ModelColumnV {
                                name: column.name,
                                marker: m.marker,
                                nullable: !has_not_null(column),
                            },
                            fk_marks(column.name, column.options),
                        ),
                    ),
                )
            } else {
                Err(unknown_table_error(table))
            },
        },
        AlterOpV::DropColumn { name } => if i < tables.len() {
            Ok(tables.update(i, without_column(tables[i], name)))
        } else {
            Ok(tables)
        },
        AlterOpV::AddConstraint { constraint: ConstraintV::ForeignKey { columns, foreign_table } } =>
            if i < tables.len() {
            Ok(
                tables.update(
                    i,
                    with_fks(
                        tables[i],
                        tables[i].foreign_keys + fk_pairs(columns, object_ident(foreign_table)),
                    ),
                ),
            )
        } else {
            Ok(tables)
        },
        _ => Ok(tables),
    }
}

pub open spec fn alter_step(table: Seq<char>) -> spec_fn(
    Result<Seq<ModelTableV>, Seq<char>>,
    AlterOpV,
) -> Result<Seq<ModelTableV>, Seq<char>> {
    |acc: Result<Seq<ModelTableV>, Seq<char>>, op: AlterOpV|
        match acc {
            Ok(tables) => alter_op(tables, table, op),
            Err(e) => Err(e),
        }
}

/// Folds one parsed statement into the model.
pub open spec fn apply_stmt(tables: Seq<ModelTableV>, s: StmtV) -> Result<
    Seq<ModelTableV>,
    Seq<char>,
> {
    match s {
        StmtV::CreateTable { name, columns, constraints } => create_table(
            tables,
            name,
            columns,
            constraints,
        ),
        StmtV::AlterTable { name, ops } => ops.fold_left(Ok(tables), alter_step(object_ident(name))),
        StmtV::Other => Ok(tables),
    }
}


/// The tables an `ALTER TABLE` leaves: after every operation, or, when one
/// fails, after the operations before it (those stay applied).
pub open spec fn alter_reached(tables: Seq<ModelTableV>, table: Seq<char>, ops: Seq<AlterOpV>) -> Seq<
    ModelTableV,
>
    decreases ops.len(),
{
    if ops.len() == 0 {
        tables
    } else {
        match ops.drop_last().fold_left(Ok(tables), alter_step(table)) {
            Ok(t) => match alter_op(t, table, ops.last()) {
                Ok(t2) => t2,
                Err(_) => t,
            },
            Err(_) => alter_reached(tables, table, ops.drop_last()),
        }
    }
}

/// The tables a statement leaves when it fails: a failed `CREATE TABLE`
/// adds nothing; a failed `ALTER TABLE` keeps the operations before the
/// failing one.
pub open spec fn apply_reached(tables: Seq<ModelTableV>, s: StmtV) -> Seq<ModelTableV> {
    match s {
        StmtV::AlterTable { name, ops } => alter_reached(tables, object_ident(name), ops),
        _ => tables,
    }
}

/// Where operation `i` of an `ALTER TABLE` is the first to fail, the tables
/// left are those after the operations before it.
proof fn lemma_alter_reached(tables: Seq<ModelTableV>, table: Seq<char>, ops: Seq<AlterOpV>, i: int)
    requires
        0 <= i < ops.len(),
        ops.take(i).fold_left(Ok(tables), alter_step(table)) is Ok,
        alter_op(ops.take(i).fold_left(Ok(tables), alter_step(table))->Ok_0, table, ops[i]) is Err,
    ensures
        alter_reached(tables, table, ops) == ops.take(i).fold_left(Ok(tables), alter_step(table))->Ok_0,
    decreases ops.len(),
{
    if i == ops.len() - 1 {
        assert(ops.drop_last() =~= ops.take(i));
    } else {
        assert(ops.drop_last().take(i) =~= ops.take(i));
        lemma_alter_reached(tables, table, ops.drop_last(), i);
        assert(ops.take(i + 1).drop_last() =~= ops.take(i));
        assert(ops.take(i + 1).last() == ops[i]);
        assert(ops.take(i + 1).fold_left(Ok(tables), alter_step(table)) is Err);
        assert(ops.drop_last().take(i + 1) =~= ops.take(i + 1));
        lemma_fold_keeps_err(ops.drop_last(), i + 1, Ok(tables), alter_step(table));
    }
}

proof fn lemma_filter_step<A>(s: Seq<A>, p: spec_fn(A) -> bool, k: int)
    requires
        0 <= k < s.len(),
    ensures
        s.take(k + 1).filter(p) == if p(s[k]) {
            s.take(k).filter(p).push(s[k])
        } else {
            s.take(k).filter(p)
        },
{
    reveal(Seq::filter);
    assert(s.take(k + 1).drop_last() =~= s.take(k));
    assert(s.take(k + 1).last() == s[k]);
}

proof fn lemma_filter_empty<A>(s: Seq<A>, p: spec_fn(A) -> bool)
    ensures
        s.take(0).filter(p) =~= Seq::<A>::empty(),
{
    reveal(Seq::filter);
}

// ===== folding statements into the model =====

proof fn lemma_marks_step(name: Seq<char>, opts: Seq<ColumnOptV>, j: int)
    requires
        0 <= j < opts.len(),
    ensures
        pk_marks(name, opts.take(j + 1)) == pk_marks(name, opts.take(j)) + if is_primary(opts[j]) {
            seq![name]
        } else {
            Seq::empty()
        },
        fk_marks(name, opts.take(j + 1)) == fk_marks(name, opts.take(j)) + match opts[j] {
            ColumnOptV::ForeignKey { foreign_table } => seq![(name, object_ident(foreign_table))],
            _ => Seq::empty(),
        },
{
    assert(opts.take(j + 1).drop_last() =~= opts.take(j));
    assert(opts.take(j + 1).last() == opts[j]);
}

/// A column added by `ALTER TABLE ... ADD COLUMN` is appended to the named
/// table, and it is nullable exactly when none of its options is `NOT NULL`;
/// every other table stays as it was.
pub proof fn lemma_added_column_nullability(
    tables: Seq<ModelTableV>,
    name: ObjNameV,
    column: ColumnV,
)
    requires
        apply_stmt(tables, StmtV::AlterTable { name, ops: seq![AlterOpV::AddColumn { column }] }) is Ok,
    ensures
        ({
            let r = apply_stmt(
                tables,
                StmtV::AlterTable { name, ops: seq![AlterOpV::AddColumn { column }] },
            )->Ok_0;
            let i = find_table(tables, object_ident(name));
            &&& 0 <= i < tables.len()
            &&& tables[i].name == object_ident(name)
            &&& r.len() == tables.len()
            &&& forall|j: int| 0 <= j < tables.len() && j != i ==> #[trigger] r[j] == tables[j]
            &&& r[i].columns.len() == tables[i].columns.len() + 1
            &&& r[i].columns.drop_last() == tables[i].columns
            &&& r[i].columns.last().name == column.name
            &&& (r[i].columns.last().nullable <==> forall|k: int|
                0 <= k < column.options.len() ==> !(#[trigger] column.options[k] is NotNull))
        }),
{
    let ops = seq![AlterOpV::AddColumn { column }];
    let table = object_ident(name);
    assert(ops.drop_last() =~= Seq::<AlterOpV>::empty());
    assert(ops.last() == AlterOpV::AddColumn { column });
    let f = alter_step(table);
    let start: Result<Seq<ModelTableV>, Seq<char>> = Ok(tables);
    assert(ops.drop_last().fold_left(start, f) == start);
    assert(ops.fold_left(start, f) == f(start, ops.last()));
    lemma_first_index_bounds(tables, named(table));
    let i = find_table(tables, table);
    assert(alter_op(tables, table, AlterOpV::AddColumn { column }) is Ok);
    let r = alter_op(tables, table, AlterOpV::AddColumn { column })->Ok_0;
    assert(r[i].columns.drop_last() =~= tables[i].columns);
}

/// Last identifier of a (possibly schema-qualified) object name.
pub fn last_ident(name: &ObjName) -> (r: String)
    ensures
        r@ == object_ident(name@),
{
    if name.parts.len() > 0 {
        name.parts[name.parts.len() - 1].clone()
    } else {
        name.display.clone()
    }
}

/// `a + b + c + d + e + f` as a string (the shape of the error messages).
fn message(a: &str, b: &str, c: &str, d: &str, e: &str, f: &str) -> (r: String)
    ensures
        r@ == a@ + b@ + c@ + d@ + e@ + f@,
{
    let mut r = String::from_str(a);
    r.append(b);
    r.append(c);
    r.append(d);
    r.append(e);
    r.append(f);
    r
}

/// `a + b + c` as a string.
fn message3(a: &str, b: &str, c: &str) -> (r: String)
    ensures
        r@ == a@ + b@ + c@,
{
    let mut r = String::from_str(a);
    r.append(b);
    r.append(c);
    r
}

/// The columns not named `name`, in order.
fn keep_columns(cols: &Vec<ModelColumn>, name: &String) -> (r: Vec<ModelColumn>)
    ensures
        column_views(r@) == column_views(cols@).filter(not_named(name@)),
{
    let ghost cv = column_views(cols@);
    let mut kept: Vec<ModelColumn> = Vec::new();
    proof {
        lemma_filter_empty(cv, not_named(name@));
    }
    for k in 0..cols.len()
        invariant
            cv == column_views(cols@),
            column_views(kept@) == cv.take(k as int).filter(not_named(name@)),
    {
        let c = &cols[k];
        let ghost kept0 = column_views(kept@);
        if !(c.name == *name) {
            kept.push(ModelColumn { name: c.name.clone(), marker: c.marker, nullable: c.nullable });
            assert(column_views(kept@) =~= kept0.push(c@));
        }
        proof {
            lemma_filter_step(cv, not_named(name@), k as int);
        }
        assert(cv[k as int] == c@);
    }
    assert(cv.take(cols.len() as int) =~= cv);
    kept
}

/// The key column names other than `name`, in order.
fn keep_keys(keys: &Vec<String>, name: &String) -> (r: Vec<String>)
    ensures
        views(r@) == views(keys@).filter(not_key(name@)),
{
    let ghost kv = views(keys@);
    let mut kept: Vec<String> = Vec::new();
    proof {
        lemma_filter_empty(kv, not_key(name@));
    }
    for k in 0..keys.len()
        invariant
            kv == views(keys@),
            views(kept@) == kv.take(k as int).filter(not_key(name@)),
    {
        let ghost kept0 = views(kept@);
        if !(keys[k] == *name) {
            let c = keys[k].clone();
            kept.push(c);
            assert(views(kept@) =~= kept0.push(kv[k as int]));
        }
        proof {
            lemma_filter_step(kv, not_key(name@), k as int);
        }
    }
    assert(kv.take(keys.len() as int) =~= kv);
    kept
}

/// The foreign-key pairs whose column is not `name`, in order.
fn keep_fks(fks: &Vec<(String, String)>, name: &String) -> (r: Vec<(String, String)>)
    ensures
        pair_views(r@) == pair_views(fks@).filter(not_from(name@)),
{
    let ghost fv = pair_views(fks@);
    let mut kept: Vec<(String, String)> = Vec::new();
    proof {
        lemma_filter_empty(fv, not_from(name@));
    }
    for k in 0..fks.len()
        invariant
            fv == pair_views(fks@),
            pair_views(kept@) == fv.take(k as int).filter(not_from(name@)),
    {
        let ghost kept0 = pair_views(kept@);
        if !(fks[k].0 == *name) {
            let pair = (fks[k].0.clone(), fks[k].1.clone());
            kept.push(pair);
            assert(pair_views(kept@) =~= kept0.push(fv[k as int]));
        }
        proof {
            lemma_filter_step(fv, not_from(name@), k as int);
        }
    }
    assert(fv.take(fks.len() as int) =~= fv);
    kept
}

impl Model {
    pub fn new() -> (r: Model)
        ensures
            r@ == Seq::<ModelTableV>::empty(),
    {
        let r = Model { tables: Vec::new() };
        assert(r@ =~= Seq::<ModelTableV>::empty());
        r
    }

    /// The position of the first table with this name, if any.
    pub fn table_index(&self, table: &String) -> (r: Option<usize>)
        ensures
            match r {
                Some(i) => i == find_table(self@, table@) && i < self@.len(),
                None => find_table(self@, table@) == self@.len(),
            },
    {
        let n = self.tables.len();
        for i in 0..n
            invariant
                n == self.tables.len(),
                forall|k: int| 0 <= k < i ==> !named(table@)(#[trigger] self@[k]),
        {
            if self.tables[i].name == *table {
                proof {
                    lemma_first_index(self@, named(table@), i as int);
                }
                return Some(i);
            }
        }
        proof {
            lemma_first_index(self@, named(table@), n as int);
        }
        None
    }

    /// Folds a `CREATE TABLE` into the model.
    fn create_table(&mut self, name: &ObjName, cols: &Vec<Column>, cons: &Vec<Constraint>) -> (r:
        Result<(), String>)
        ensures
            match r {
                Ok(_) => create_table(old(self)@, name@, col_views(cols@), con_views(cons@)) == Ok::<
                    Seq<ModelTableV>,
                    Seq<char>,
                >(final(self)@),
                Err(e) => {
                    &&& create_table(old(self)@, name@, col_views(cols@), con_views(cons@)) == Err::<
                        Seq<ModelTableV>,
                        Seq<char>,
                    >(e@)
                    &&& final(self)@ == old(self)@
                },
            },
    {
        let ghost cv = col_views(cols@);
        let table = last_ident(name);
        let mut columns: Vec<ModelColumn> = Vec::new();
        let mut primary_key: Vec<String> = Vec::new();
        let mut foreign_keys: Vec<(String, String)> = Vec::new();
        let n = cols.len();
        for i in 0..n
            invariant
                n == cols.len(),
                cv == col_views(cols@),
                table@ == object_ident(name@),
                forall|k: int| 0 <= k < i ==> !unmapped()(#[trigger] cv[k]),
                column_views(columns@) == model_columns(cv.take(i as int)),
                views(primary_key@) == columns_pk(cv.take(i as int)),
                pair_views(foreign_keys@) == columns_fks(cv.take(i as int)),
        {
            let c = &cols[i];
            let mapped = match map_type(c.ty) {
                Some(m) => m,
                None => {
                    proof {
                        lemma_first_index(cv, unmapped(), i as int);
                    }
                    return Err(
                        message(
                            "table `",
                            table.as_str(),
                            "`, column `",
                            c.name_display.as_str(),
                            "`: no mapping for type ",
                            c.ty_debug.as_str(),
                        ),
                    );
                },
            };
            let ghost opts = opt_views(c.options@);
            let mut nullable = true;
            let m = c.options.len();
            for j in 0..m
                invariant
                    m == c.options.len(),
                    opts == opt_views(c.options@),
                    nullable == forall|k: int|
                        0 <= k < j ==> !(#[trigger] opts[k] is NotNull) && !is_primary(opts[k]),
                    views(primary_key@) == columns_pk(cv.take(i as int)) + pk_marks(
                        c.name@,
                        opts.take(j as int),
                    ),
                    pair_views(foreign_keys@) == columns_fks(cv.take(i as int)) + fk_marks(
                        c.name@,
                        opts.take(j as int),
                    ),
            {
                let ghost pk0 = views(primary_key@);
                let ghost fk0 = pair_views(foreign_keys@);
                match &c.options[j] {
                    ColumnOpt::NotNull => {
                        nullable = false;
                    },
                    ColumnOpt::Unique { is_primary } => {
                        if *is_primary {
                            primary_key.push(c.name.clone());
                            assert(views(primary_key@) =~= pk0.push(c.name@));
                            nullable = false;
                        }
                    },
                    ColumnOpt::ForeignKey { foreign_table } => {
                        let pair = (c.name.clone(), last_ident(foreign_table));
                        foreign_keys.push(pair);
                        assert(pair_views(foreign_keys@) =~= fk0.push((pair.0@, pair.1@)));
                    },
                    ColumnOpt::Other => {},
                }
                proof {
                    lemma_marks_step(c.name@, opts, j as int);
                    assert(opts[j as int] == c.options@[j as int]@);
                }
                assert(views(primary_key@) =~= columns_pk(cv.take(i as int)) + pk_marks(
                    c.name@,
                    opts.take(j + 1),
                ));
                assert(pair_views(foreign_keys@) =~= columns_fks(cv.take(i as int)) + fk_marks(
                    c.name@,
                    opts.take(j + 1),
                ));
            }
            assert(opts.take(m as int) =~= opts);
            assert(cv[i as int] == c@);
            assert(col_nullable(c@) == nullable);
            let mc = ModelColumn { name: c.name.clone(), marker: mapped.marker, nullable };
            assert(model_column(cv[i as int]) == mc@);
            columns.push(mc);
            assert(cv.take(i + 1).drop_last() =~= cv.take(i as int));
            assert(model_columns(cv.take(i + 1)) =~= model_columns(cv.take(i as int)).push(
                model_column(cv[i as int]),
            ));
            assert(column_views(columns@) =~= model_columns(cv.take(i + 1)));
            assert(views(primary_key@) =~= columns_pk(cv.take(i + 1)));
            assert(pair_views(foreign_keys@) =~= columns_fks(cv.take(i + 1)));
        }
        proof {
            lemma_first_index(cv, unmapped(), n as int);
            assert(cv.take(n as int) =~= cv);
        }
        let ghost kv = con_views(cons@);
        let ghost pk_cols = views(primary_key@);
        let ghost fk_cols = pair_views(foreign_keys@);
        let q = cons.len();
        for j in 0..q
            invariant
                q == cons.len(),
                kv == con_views(cons@),
                views(primary_key@) == constraints_pk(pk_cols, kv.take(j as int)),
                pair_views(foreign_keys@) == fk_cols + constraints_fks(kv.take(j as int)),
        {
            let ghost fk0 = pair_views(foreign_keys@);
            match &cons[j] {
                Constraint::PrimaryKey { columns: pk } => {
                    primary_key = pk.clone();
                },
                Constraint::ForeignKey { columns: fk_cols_here, foreign_table } => {
                    let parent = last_ident(foreign_table);
                    let r = fk_cols_here.len();
                    for k in 0..r
                        invariant
                            r == fk_cols_here.len(),
                            pair_views(foreign_keys@) == fk0 + fk_pairs(
                                views(fk_cols_here@).take(k as int),
                                parent@,
                            ),
                    {
                        let ghost before = pair_views(foreign_keys@);
                        let pair = (fk_cols_here[k].clone(), parent.clone());
                        foreign_keys.push(pair);
                        assert(pair_views(foreign_keys@) =~= before.push((pair.0@, pair.1@)));
                        assert(views(fk_cols_here@).take(k + 1) =~= views(fk_cols_here@).take(
                            k as int,
                        ).push(fk_cols_here@[k as int]@));
                        assert(fk_pairs(views(fk_cols_here@).take(k + 1), parent@) =~= fk_pairs(
                            views(fk_cols_here@).take(k as int),
                            parent@,
                        ).push((fk_cols_here@[k as int]@, parent@)));
                        assert(pair_views(foreign_keys@) =~= fk0 + fk_pairs(
                            views(fk_cols_here@).take(k + 1),
                            parent@,
                        ));
                    }
                    assert(views(fk_cols_here@).take(r as int) =~= views(fk_cols_here@));
                },
                Constraint::Other => {},
            }
            assert(kv.take(j + 1).drop_last() =~= kv.take(j as int));
            assert(pair_views(foreign_keys@) =~= fk_cols + constraints_fks(kv.take(j + 1)));
        }
        assert(kv.take(q as int) =~= kv);
        let t = ModelTable { name: table, columns, primary_key, foreign_keys };
        self.tables.push(t);
        assert(self@ =~= old(self)@.push(t@));
        Ok(())
    }

    /// Folds an `ALTER TABLE` into the model, operation by operation.
    fn alter_table(&mut self, name: &ObjName, ops: &Vec<AlterOp>) -> (r: Result<(), String>)
        ensures
            match r {
                Ok(_) => op_views(ops@).fold_left(
                    Ok::<Seq<ModelTableV>, Seq<char>>(old(self)@),
                    alter_step(object_ident(name@)),
                ) == Ok::<Seq<ModelTableV>, Seq<char>>(final(self)@),
                Err(e) => {
                    &&& op_views(ops@).fold_left(
                        Ok::<Seq<ModelTableV>, Seq<char>>(old(self)@),
                        alter_step(object_ident(name@)),
                    ) == Err::<Seq<ModelTableV>, Seq<char>>(e@)
                    &&& final(self)@ == alter_reached(old(self)@, object_ident(name@), op_views(ops@))
                },
            },
    {
        let ghost ov = op_views(ops@);
        let ghost init = Ok::<Seq<ModelTableV>, Seq<char>>(self@);
        let ghost step = alter_step(object_ident(name@));
        let tname = last_ident(name);
        let n = ops.len();
        assert(ov.take(0).fold_left(init, step) == init);
        for i in 0..n
            invariant
                n == ops.len(),
                ov == op_views(ops@),
                init == Ok::<Seq<ModelTableV>, Seq<char>>(old(self)@),
                step == alter_step(object_ident(name@)),
                tname@ == object_ident(name@),
                ov.take(i as int).fold_left(init, step) == Ok::<Seq<ModelTableV>, Seq<char>>(
                    self@,
                ),
        {
            let ghost before = self@;
            assert(ov.take(i + 1).drop_last() =~= ov.take(i as int));
            assert(ov[i as int] == ops@[i as int]@);
            assert(ov.take(i + 1).fold_left(init, step) == alter_op(before, tname@, ov[i as int]));
            match &ops[i] {
                AlterOp::AddColumn { column } => {
                    let mapped = match map_type(column.ty) {
                        Some(m) => m,
                        None => {
                            let e = message(
                                "ALTER `",
                                tname.as_str(),
                                "` ADD `",
                                column.name_display.as_str(),
                                "`: no mapping for type ",
                                column.ty_debug.as_str(),
                            );
                            proof {
                                lemma_fold_keeps_err(ov, i + 1, init, step);
                                lemma_alter_reached(old(self)@, tname@, ov, i as int);
                            }
                            return Err(e);
                        },
                    };
                    let mut nullable = true;
                    let m = column.options.len();
                    for j in 0..m
                        invariant
                            m == column.options.len(),
                            nullable == !exists|k: int|
                                0 <= k < j && #[trigger] opt_views(column.options@)[k] is NotNull,
                    {
                        if let ColumnOpt::NotNull = &column.options[j] {
                            nullable = false;
                        }
                        assert(opt_views(column.options@)[j as int] == column.options@[j as int]@);
                    }
                    let col = ModelColumn { name: column.name.clone(), marker: mapped.marker, nullable };
                    match self.table_index(&tname) {
                        Some(t) => {
                            let mut tab = self.tables.remove(t);
                            let ghost tab0 = tab@;
                            let ghost cols0 = column_views(tab.columns@);
                            let ghost fk0 = pair_views(tab.foreign_keys@);
                            let ghost colv = col@;
                            tab.columns.push(col);
                            assert(column_views(tab.columns@) =~= cols0.push(colv));
                            let ghost opts = opt_views(column.options@);
                            assert(fk0 + fk_marks(column.name@, opts.take(0)) =~= fk0);
                            for j in 0..m
                                invariant
                                    m == column.options.len(),
                                    opts == opt_views(column.options@),
                                    tab.name@ == tab0.name,
                                    views(tab.primary_key@) == tab0.primary_key,
                                    column_views(tab.columns@) == cols0.push(colv),
                                    pair_views(tab.foreign_keys@) == fk0 + fk_marks(
                                        column.name@,
                                        opts.take(j as int),
                                    ),
                            {
                                let ghost here = pair_views(tab.foreign_keys@);
                                if let ColumnOpt::ForeignKey { foreign_table } = &column.options[j] {
                                    let pair = (column.name.clone(), last_ident(foreign_table));
                                    tab.foreign_keys.push(pair);
                                    assert(pair_views(tab.foreign_keys@) =~= here.push(
                                        (pair.0@, pair.1@),
                                    ));
                                }
                                proof {
                                    lemma_marks_step(column.name@, opts, j as int);
                                    assert(opts[j as int] == column.options@[j as int]@);
                                }
                                assert(pair_views(tab.foreign_keys@) =~= fk0 + fk_marks(
                                    column.name@,
                                    opts.take(j + 1),
                                ));
                            }
                            assert(opts.take(m as int) =~= opts);
                            self.tables.insert(t, tab);
                            assert(self@ =~= before.update(
                                t as int,
                                with_added_column(before[t as int], colv, fk_marks(column.name@, opts)),
                            ));
                        },
                        None => {
                            let e = message3("ALTER on unknown table `", tname.as_str(), "`");
                            proof {
                                lemma_fold_keeps_err(ov, i + 1, init, step);
                                lemma_alter_reached(old(self)@, tname@, ov, i as int);
                            }
                            return Err(e);
                        },
                    }
                },
                AlterOp::DropColumn { name: dropped } => {
                    if let Some(t) = self.table_index(&tname) {
                        let tab = self.tables.remove(t);
                        let kept = keep_columns(&tab.columns, dropped);
                        let pk = keep_keys(&tab.primary_key, dropped);
                        let fks = keep_fks(&tab.foreign_keys, dropped);
                        let new_tab = ModelTable {
                            name: tab.name,
                            columns: kept,
                            primary_key: pk,
                            foreign_keys: fks,
                        };
                        self.tables.insert(t, new_tab);
                        assert(self@ =~= before.update(
                            t as int,
                            without_column(before[t as int], dropped@),
                        ));
                    }
                },
                AlterOp::AddConstraint { constraint } => {
                    if let Constraint::ForeignKey { columns, foreign_table } = constraint {
                        if let Some(t) = self.table_index(&tname) {
                            let parent = last_ident(foreign_table);
                            let tab = self.tables.remove(t);
                            let ModelTable { name: tn, columns: tc, primary_key: tp, foreign_keys: mut fks } = tab;
                            let ghost fk0 = pair_views(fks@);
                            let r = columns.len();
                            for k in 0..r
                                invariant
                                    r == columns.len(),
                                    pair_views(fks@) == fk0 + fk_pairs(
                                        views(columns@).take(k as int),
                                        parent@,
                                    ),
                            {
                                let ghost here = pair_views(fks@);
                                let pair = (columns[k].clone(), parent.clone());
                                fks.push(pair);
                                assert(pair_views(fks@) =~= here.push(
                                    (pair.0@, pair.1@),
                                ));
                                assert(views(columns@).take(k + 1) =~= views(columns@).take(
                                    k as int,
                                ).push(columns@[k as int]@));
                                assert(fk_pairs(views(columns@).take(k + 1), parent@) =~= fk_pairs(
                                    views(columns@).take(k as int),
                                    parent@,
                                ).push((columns@[k as int]@, parent@)));
                            }
                            assert(views(columns@).take(r as int) =~= views(columns@));
                            let tab = ModelTable { name: tn, columns: tc, primary_key: tp, foreign_keys: fks };
                            self.tables.insert(t, tab);
                            assert(self@ =~= before.update(
                                t as int,
                                with_fks(before[t as int], fk0 + fk_pairs(views(columns@), parent@)),
                            ));
                        }
                    }
                },
                AlterOp::Other => {},
            }
        }
        assert(ov.take(n as int) =~= ov);
        Ok(())
    }

    /// Folds a parsed statement into the model (the `schema.rs` source of
    /// truth).
    pub fn apply(&mut self, stmt: &Stmt) -> (r: Result<(), String>)
        ensures
            match r {
                Ok(_) => apply_stmt(old(self)@, stmt@) == Ok::<Seq<ModelTableV>, Seq<char>>(
                    final(self)@,
                ),
                Err(e) => {
                    &&& apply_stmt(old(self)@, stmt@) == Err::<Seq<ModelTableV>, Seq<char>>(e@)
                    &&& final(self)@ == apply_reached(old(self)@, stmt@)
                },
            },
    {
        match stmt {
            Stmt::CreateTable { name, columns, constraints } => self.create_table(
                name,
                columns,
                constraints,
            ),
            Stmt::AlterTable { name, ops } => self.alter_table(name, ops),
            Stmt::Other => Ok(()),
        }
    }
}

} // verus!
