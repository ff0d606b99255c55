//! The boundary to `sqlparser`: logical DDL text is parsed into a plain model
//! that the generator reads, and a parsed statement is printed back with its
//! column types replaced.
//!
//! What `sqlparser` computes is named by [`sql_parse`] (the statements of a
//! text) and [`sql_render`] (a statement printed with some column types
//! replaced), functions of their arguments alone. Small trusted reads each
//! take one field of a syntax tree; the model of a statement is assembled from
//! them by verified code ([`statements`]), and so is the printing
//! ([`render_statement`]).
use crate::text::views;
use sqlparser::ast::{
    AlterTableOperation, ColumnDef, ColumnOption, DataType, Ident, ObjectName, Statement,
    TableConstraint,
};
use sqlparser::dialect::GenericDialect;
use sqlparser::parser::Parser;
use vstd::prelude::*;

verus! {

#[verifier::external_type_specification]
#[verifier::external_body]
pub struct ExStatement(sqlparser::ast::Statement);

#[verifier::external_type_specification]
#[verifier::external_body]
pub struct ExColumnDef(sqlparser::ast::ColumnDef);

#[verifier::external_type_specification]
#[verifier::external_body]
pub struct ExTableConstraint(sqlparser::ast::TableConstraint);

/// The column types the schema mapping distinguishes, one per `sqlparser`
/// `DataType` variant; every other variant is `Other`.
#[derive(Clone, Copy, Debug, PartialEq, Eq, Structural)]
pub enum SqlType {
    Uuid,
    Timestamp,
    Json,
    Jsonb,
    Bytea,
    Numeric,
    Decimal,
    Dec,
    Text,
    SmallInt,
    Integer,
    Int,
    BigInt,
    Real,
    Float,
    Boolean,
    Bool,
    Other,
}

/// A (possibly schema-qualified) object name: its identifiers' values and its
/// printed form.
pub struct ObjName {
    pub parts: Vec<String>,
    pub display: String,
}

pub struct ObjNameV {
    pub parts: Seq<Seq<char>>,
    pub display: Seq<char>,
}

impl View for ObjName {
    type V = ObjNameV;

    open spec fn view(&self) -> ObjNameV {
        ObjNameV { parts: views(self.parts@), display: self.display@ }
    }
}

/// A column option the model reads.
pub enum ColumnOpt {
    NotNull,
    Unique { is_primary: bool },
    ForeignKey { foreign_table: ObjName },
    Other,
}

pub enum ColumnOptV {
    NotNull,
    Unique { is_primary: bool },
    ForeignKey { foreign_table: ObjNameV },
    Other,
}

impl View for ColumnOpt {
    type V = ColumnOptV;

    open spec fn view(&self) -> ColumnOptV {
        match self {
            ColumnOpt::NotNull => ColumnOptV::NotNull,
            ColumnOpt::Unique { is_primary } => ColumnOptV::Unique { is_primary: *is_primary },
            ColumnOpt::ForeignKey { foreign_table } => ColumnOptV::ForeignKey {
                foreign_table: foreign_table@,
            },
            ColumnOpt::Other => ColumnOptV::Other,
        }
    }
}

/// A column definition: name (value and printed form), type, the type's
/// debug rendering (for error messages) and options.
pub struct Column {
    pub name: String,
    pub name_display: String,
    pub ty: SqlType,
    pub ty_debug: String,
    pub options: Vec<ColumnOpt>,
}

pub open spec fn opt_views(v: Seq<ColumnOpt>) -> Seq<ColumnOptV> {
    v.map_values(|o: ColumnOpt| o@)
}

pub struct ColumnV {
    pub name: Seq<char>,
    pub name_display: Seq<char>,
    pub ty: SqlType,
    pub ty_debug: Seq<char>,
    pub options: Seq<ColumnOptV>,
}

impl View for Column {
    type V = ColumnV;

    open spec fn view(&self) -> ColumnV {
        ColumnV {
            name: self.name@,
            name_display: self.name_display@,
            ty: self.ty,
            ty_debug: self.ty_debug@,
            options: opt_views(self.options@),
        }
    }
}

/// A table constraint the model reads.
pub enum Constraint {
    PrimaryKey { columns: Vec<String> },
    ForeignKey { columns: Vec<String>, foreign_table: ObjName },
    Other,
}

pub enum ConstraintV {
    PrimaryKey { columns: Seq<Seq<char>> },
    ForeignKey { columns: Seq<Seq<char>>, foreign_table: ObjNameV },
    Other,
}

impl View for Constraint {
    type V = ConstraintV;

    open spec fn view(&self) -> ConstraintV {
        match self {
            Constraint::PrimaryKey { columns } => ConstraintV::PrimaryKey {
                columns: views(columns@),
            },
            Constraint::ForeignKey { columns, foreign_table } => ConstraintV::ForeignKey {
                columns: views(columns@),
                foreign_table: foreign_table@,
            },
            Constraint::Other => ConstraintV::Other,
        }
    }
}

/// An `ALTER TABLE` operation the model reads.
pub enum AlterOp {
    AddColumn { column: Column },
    DropColumn { name: String },
    AddConstraint { constraint: Constraint },
    Other,
}

pub enum AlterOpV {
    AddColumn { column: ColumnV },
    DropColumn { name: Seq<char> },
    AddConstraint { constraint: ConstraintV },
    Other,
}

impl View for AlterOp {
    type V = AlterOpV;

    open spec fn view(&self) -> AlterOpV {
        match self {
            AlterOp::AddColumn { column } => AlterOpV::AddColumn { column: column@ },
            AlterOp::DropColumn { name } => AlterOpV::DropColumn { name: name@ },
            AlterOp::AddConstraint { constraint } => AlterOpV::AddConstraint {
                constraint: constraint@,
            },
            AlterOp::Other => AlterOpV::Other,
        }
    }
}

/// A parsed statement, as far as the schema model reads it.
pub enum Stmt {
    CreateTable { name: ObjName, columns: Vec<Column>, constraints: Vec<Constraint> },
    AlterTable { name: ObjName, ops: Vec<AlterOp> },
    Other,
}

pub open spec fn col_views(v: Seq<Column>) -> Seq<ColumnV> {
    v.map_values(|c: Column| c@)
}

pub open spec fn con_views(v: Seq<Constraint>) -> Seq<ConstraintV> {
    v.map_values(|c: Constraint| c@)
}

pub open spec fn op_views(v: Seq<AlterOp>) -> Seq<AlterOpV> {
    v.map_values(|o: AlterOp| o@)
}

pub open spec fn stmt_views(v: Seq<Stmt>) -> Seq<StmtV> {
    v.map_values(|s: Stmt| s@)
}

pub enum StmtV {
    CreateTable { name: ObjNameV, columns: Seq<ColumnV>, constraints: Seq<ConstraintV> },
    AlterTable { name: ObjNameV, ops: Seq<AlterOpV> },
    Other,
}

impl View for Stmt {
    type V = StmtV;

    open spec fn view(&self) -> StmtV {
        match self {
            Stmt::CreateTable { name, columns, constraints } => StmtV::CreateTable {
                name: name@,
                columns: col_views(columns@),
                constraints: con_views(constraints@),
            },
            Stmt::AlterTable { name, ops } => StmtV::AlterTable {
                name: name@,
                ops: op_views(ops@),
            },
            Stmt::Other => StmtV::Other,
        }
    }
}

/// What `sqlparser` (generic dialect) makes of a SQL text: the model of each
/// statement, or the parser's error message.
pub uninterp spec fn sql_parse(sql: Seq<char>) -> Result<Seq<StmtV>, Seq<char>>;

/// How `sqlparser` prints statement `index` of `sql` once the data type of
/// each column slot `k` in the domain of `edits` is replaced by the single
/// identifier `edits[k]`. Column slot `k` is column `k` of a `CREATE TABLE`, or
/// operation `k` (an `ADD COLUMN`) of an `ALTER TABLE`.
pub uninterp spec fn sql_render(sql: Seq<char>, index: int, edits: Map<int, Seq<char>>) -> Seq<
    char,
>;

/// Statement `i` of a text that parses.
pub open spec fn stmt_at(sql: Seq<char>, i: int) -> StmtV {
    sql_parse(sql)->Ok_0[i]
}

/// The kind of a statement.
#[derive(Clone, Copy, PartialEq, Eq, Structural)]
pub enum StmtKind {
    CreateTable,
    AlterTable,
    Other,
}

pub open spec fn kind_of(s: StmtV) -> StmtKind {
    match s {
        StmtV::CreateTable { .. } => StmtKind::CreateTable,
        StmtV::AlterTable { .. } => StmtKind::AlterTable,
        StmtV::Other => StmtKind::Other,
    }
}

/// The kind of an `ALTER TABLE` operation.
#[derive(Clone, Copy, PartialEq, Eq, Structural)]
pub enum OpKind {
    AddColumn,
    DropColumn,
    AddConstraint,
    Other,
}

pub open spec fn op_kind_of(o: AlterOpV) -> OpKind {
    match o {
        AlterOpV::AddColumn { .. } => OpKind::AddColumn,
        AlterOpV::DropColumn { .. } => OpKind::DropColumn,
        AlterOpV::AddConstraint { .. } => OpKind::AddConstraint,
        AlterOpV::Other => OpKind::Other,
    }
}

/// Slot `k` of a statement holds a column definition: column `k` of a
/// `CREATE TABLE`, or operation `k` of an `ALTER TABLE` when it adds a column.
pub open spec fn has_column_slot(s: StmtV, k: int) -> bool {
    match s {
        StmtV::CreateTable { columns, .. } => 0 <= k < columns.len(),
        StmtV::AlterTable { ops, .. } => 0 <= k < ops.len() && ops[k] is AddColumn,
        StmtV::Other => false,
    }
}

pub open spec fn column_slot(s: StmtV, k: int) -> ColumnV {
    match s {
        StmtV::CreateTable { columns, .. } => columns[k],
        StmtV::AlterTable { ops, .. } => ops[k]->AddColumn_column,
        StmtV::Other => arbitrary(),
    }
}

/// Slot `k` of a statement holds a table constraint: constraint `k` of a
/// `CREATE TABLE`, or operation `k` of an `ALTER TABLE` when it adds one.
pub open spec fn has_constraint_slot(s: StmtV, k: int) -> bool {
    match s {
        StmtV::CreateTable { constraints, .. } => 0 <= k < constraints.len(),
        StmtV::AlterTable { ops, .. } => 0 <= k < ops.len() && ops[k] is AddConstraint,
        StmtV::Other => false,
    }
}

pub open spec fn constraint_slot(s: StmtV, k: int) -> ConstraintV {
    match s {
        StmtV::CreateTable { constraints, .. } => constraints[k],
        StmtV::AlterTable { ops, .. } => ops[k]->AddConstraint_constraint,
        StmtV::Other => ConstraintV::Other,
    }
}

/// A SQL text that `sqlparser` parsed, with its syntax trees.
pub struct ParsedSql {
    source: String,
    asts: Vec<Statement>,
}

impl ParsedSql {
    pub closed spec fn source(&self) -> Seq<char> {
        self.source@
    }

    /// The text parses, and one syntax tree is kept per statement.
    pub closed spec fn wf(&self) -> bool {
        &&& sql_parse(self.source@) is Ok
        &&& self.asts@.len() == sql_parse(self.source@)->Ok_0.len()
    }

    /// The statements of the text.
    pub open spec fn statements(&self) -> Seq<StmtV> {
        sql_parse(self.source())->Ok_0
    }

    pub fn len(&self) -> (r: usize)
        requires
            self.wf(),
        ensures
            r == self.statements().len(),
    {
        self.asts.len()
    }
}

/// A column definition inside a parsed text: statement `stmt`, slot `slot`.
pub struct ColumnRef<'a> {
    def: &'a ColumnDef,
    source: &'a String,
    stmt: usize,
    slot: usize,
}

impl<'a> ColumnRef<'a> {
    /// The modelled column the reference points at.
    pub closed spec fn column(&self) -> ColumnV {
        column_slot(stmt_at(self.source@, self.stmt as int), self.slot as int)
    }
}

/// A table constraint inside a parsed text: statement `stmt`, slot `slot`.
pub struct ConstraintRef<'a> {
    con: &'a TableConstraint,
    source: &'a String,
    stmt: usize,
    slot: usize,
}

impl<'a> ConstraintRef<'a> {
    /// The modelled constraint the reference points at.
    pub closed spec fn constraint(&self) -> ConstraintV {
        constraint_slot(stmt_at(self.source@, self.stmt as int), self.slot as int)
    }
}

// ===== trusted reads of sqlparser's syntax trees =====

/// `sqlparser::parser::Parser::parse_sql` with the generic dialect. The
/// contract claims that the outcome is the one [`sql_parse`] names for this
/// text (statements, or the error's message), and that one syntax tree is
/// kept per statement.
#[verifier::external_body]
pub fn parse_sql(sql: &str) -> (r: Result<ParsedSql, String>)
    ensures
        match r {
            Ok(p) => p.wf() && p.source() == sql@ && sql_parse(sql@) is Ok,
            Err(e) => sql_parse(sql@) == Err::<Seq<StmtV>, Seq<char>>(e@),
        },
{
    match Parser::parse_sql(&GenericDialect {}, sql) {
        Ok(asts) => Ok(ParsedSql { source: sql.to_string(), asts }),
        Err(e) => Err(e.to_string()),
    }
}

/// Which of `Statement::CreateTable`, `Statement::AlterTable` or another
/// variant statement `i` is.
#[verifier::external_body]
fn stmt_kind(p: &ParsedSql, i: usize) -> (r: StmtKind)
    requires
        p.wf(),
        i < p.statements().len(),
    ensures
        r == kind_of(p.statements()[i as int]),
{
    match &p.asts[i] {
        Statement::CreateTable(_) => StmtKind::CreateTable,
        Statement::AlterTable { .. } => StmtKind::AlterTable,
        _ => StmtKind::Other,
    }
}

/// The `name` of a `CREATE TABLE` or `ALTER TABLE`: its identifiers' values
/// and its `Display` form.
#[verifier::external_body]
fn stmt_name(p: &ParsedSql, i: usize) -> (r: ObjName)
    requires
        p.wf(),
        i < p.statements().len(),
        !(p.statements()[i as int] is Other),
    ensures
        r@ == match p.statements()[i as int] {
            StmtV::CreateTable { name, .. } => name,
            StmtV::AlterTable { name, .. } => name,
            StmtV::Other => r@,
        },
{
    let n = match &p.asts[i] {
        Statement::CreateTable(ct) => &ct.name,
        Statement::AlterTable { name, .. } => name,
        _ => return ObjName { parts: Vec::new(), display: String::new() },
    };
    ObjName { parts: n.0.iter().map(|id| id.value.clone()).collect(), display: n.to_string() }
}

/// The number of columns of `CREATE TABLE` `i`, or of operations of `ALTER
/// TABLE` `i`.
#[verifier::external_body]
fn slot_count(p: &ParsedSql, i: usize) -> (r: usize)
    requires
        p.wf(),
        i < p.statements().len(),
    ensures
        r == match p.statements()[i as int] {
            StmtV::CreateTable { columns, .. } => columns.len(),
            StmtV::AlterTable { ops, .. } => ops.len(),
            StmtV::Other => 0,
        },
{
    match &p.asts[i] {
        Statement::CreateTable(ct) => ct.columns.len(),
        Statement::AlterTable { operations, .. } => operations.len(),
        _ => 0,
    }
}

/// The number of table constraints of `CREATE TABLE` `i`.
#[verifier::external_body]
fn constraint_count(p: &ParsedSql, i: usize) -> (r: usize)
    requires
        p.wf(),
        i < p.statements().len(),
        p.statements()[i as int] is CreateTable,
    ensures
        r == p.statements()[i as int]->CreateTable_constraints.len(),
{
    match &p.asts[i] {
        Statement::CreateTable(ct) => ct.constraints.len(),
        _ => 0,
    }
}

/// Which `AlterTableOperation` variant operation `j` of `ALTER TABLE` `i` is.
#[verifier::external_body]
fn op_kind(p: &ParsedSql, i: usize, j: usize) -> (r: OpKind)
    requires
        p.wf(),
        i < p.statements().len(),
        p.statements()[i as int] matches StmtV::AlterTable { ops, .. } && j < ops.len(),
    ensures
        r == op_kind_of(p.statements()[i as int]->AlterTable_ops[j as int]),
{
    match &p.asts[i] {
        Statement::AlterTable { operations, .. } => match &operations[j] {
            AlterTableOperation::AddColumn { .. } => OpKind::AddColumn,
            AlterTableOperation::DropColumn { .. } => OpKind::DropColumn,
            AlterTableOperation::AddConstraint(_) => OpKind::AddConstraint,
            _ => OpKind::Other,
        },
        _ => OpKind::Other,
    }
}

/// The `column_name` value of `DROP COLUMN` operation `j` of `ALTER TABLE` `i`.
#[verifier::external_body]
fn dropped_column(p: &ParsedSql, i: usize, j: usize) -> (r: String)
    requires
        p.wf(),
        i < p.statements().len(),
        p.statements()[i as int] matches StmtV::AlterTable { ops, .. } && j < ops.len()
            && ops[j as int] is DropColumn,
    ensures
        r@ == p.statements()[i as int]->AlterTable_ops[j as int]->DropColumn_name,
{
    match &p.asts[i] {
        Statement::AlterTable { operations, .. } => match &operations[j] {
            AlterTableOperation::DropColumn { column_name, .. } => column_name.value.clone(),
            _ => String::new(),
        },
        _ => String::new(),
    }
}

/// The `ColumnDef` in column slot `k` of statement `i`.
#[verifier::external_body]
fn column_ref<'a>(p: &'a ParsedSql, i: usize, k: usize) -> (r: ColumnRef<'a>)
    requires
        p.wf(),
        i < p.statements().len(),
        has_column_slot(p.statements()[i as int], k as int),
    ensures
        r.column() == column_slot(p.statements()[i as int], k as int),
{
    let def = match &p.asts[i] {
        Statement::CreateTable(ct) => Some(&ct.columns[k]),
        Statement::AlterTable { operations, .. } => match &operations[k] {
            AlterTableOperation::AddColumn { column_def, .. } => Some(column_def),
            _ => None,
        },
        _ => None,
    };
    ColumnRef { def: def.expect("a column slot"), source: &p.source, stmt: i, slot: k }
}

/// A column's name: the identifier's `value` and its `Display` form.
#[verifier::external_body]
fn column_name(c: &ColumnRef) -> (r: (String, String))
    ensures
        r.0@ == c.column().name,
        r.1@ == c.column().name_display,
{
    (c.def.name.value.clone(), c.def.name.to_string())
}

/// Which `DataType` variant a column's type is (each variant the mapping
/// distinguishes gets its own tag).
#[verifier::external_body]
fn column_type(c: &ColumnRef) -> (r: SqlType)
    ensures
        r == c.column().ty,
{
    match &c.def.data_type {
        DataType::Uuid => SqlType::Uuid, DataType::Timestamp(..) => SqlType::Timestamp,
        DataType::JSON => SqlType::Json, DataType::JSONB => SqlType::Jsonb,
        DataType::Bytea => SqlType::Bytea, DataType::Numeric(_) => SqlType::Numeric,
        DataType::Decimal(_) => SqlType::Decimal, DataType::Dec(_) => SqlType::Dec,
        DataType::Text => SqlType::Text, DataType::SmallInt(_) => SqlType::SmallInt,
        DataType::Integer(_) => SqlType::Integer, DataType::Int(_) => SqlType::Int,
        DataType::BigInt(_) => SqlType::BigInt, DataType::Real => SqlType::Real,
        DataType::Float(_) => SqlType::Float, DataType::Boolean => SqlType::Boolean,
        DataType::Bool => SqlType::Bool, _ => SqlType::Other,
    }
}

/// A column type's `Debug` form.
#[verifier::external_body]
fn column_type_debug(c: &ColumnRef) -> (r: String)
    ensures
        r@ == c.column().ty_debug,
{
    format!("{:?}", c.def.data_type)
}

/// The number of options of a column.
#[verifier::external_body]
fn option_count(c: &ColumnRef) -> (r: usize)
    ensures
        r == c.column().options.len(),
{
    c.def.options.len()
}

/// Option `k` of a column: `NOT NULL`, `UNIQUE`/`PRIMARY KEY` (with
/// `is_primary`), `REFERENCES` (with the foreign table's name), or another.
#[verifier::external_body]
fn column_option(c: &ColumnRef, k: usize) -> (r: ColumnOpt)
    requires
        k < c.column().options.len(),
    ensures
        r@ == c.column().options[k as int],
{
    match &c.def.options[k].option {
        ColumnOption::NotNull => ColumnOpt::NotNull,
        ColumnOption::Unique { is_primary, .. } => ColumnOpt::Unique { is_primary: *is_primary },
        ColumnOption::ForeignKey { foreign_table: n, .. } => ColumnOpt::ForeignKey {
            foreign_table: ObjName { parts: n.0.iter().map(|id| id.value.clone()).collect(), display: n.to_string() },
        },
        _ => ColumnOpt::Other,
    }
}

/// The `TableConstraint` in constraint slot `k` of statement `i`.
#[verifier::external_body]
fn constraint_ref<'a>(p: &'a ParsedSql, i: usize, k: usize) -> (r: ConstraintRef<'a>)
    requires
        p.wf(),
        i < p.statements().len(),
        has_constraint_slot(p.statements()[i as int], k as int),
    ensures
        r.constraint() == constraint_slot(p.statements()[i as int], k as int),
{
    let con = match &p.asts[i] {
        Statement::CreateTable(ct) => Some(&ct.constraints[k]),
        Statement::AlterTable { operations, .. } => match &operations[k] {
            AlterTableOperation::AddConstraint(con) => Some(con),
            _ => None,
        },
        _ => None,
    };
    ConstraintRef { con: con.expect("a constraint slot"), source: &p.source, stmt: i, slot: k }
}

/// A table constraint: `PRIMARY KEY` (its columns' values), `FOREIGN KEY`
/// (its columns' values and the foreign table's name), or another.
#[verifier::external_body]
fn constraint_model(c: &ConstraintRef) -> (r: Constraint)
    ensures
        r@ == c.constraint(),
{
    match c.con {
        TableConstraint::PrimaryKey { columns, .. } => Constraint::PrimaryKey {
            columns: columns.iter().map(|id| id.value.clone()).collect(),
        },
        TableConstraint::ForeignKey { columns, foreign_table: n, .. } => Constraint::ForeignKey {
            columns: columns.iter().map(|id| id.value.clone()).collect(),
            foreign_table: ObjName { parts: n.0.iter().map(|id| id.value.clone()).collect(), display: n.to_string() },
        },
        _ => Constraint::Other,
    }
}

// ===== printing a statement with native column types =====

/// A copy of one parsed statement whose column types are being replaced.
pub struct Rendering {
    ast: Statement,
    source: String,
    index: usize,
    edits: Vec<(usize, String)>,
}

/// The replacements made so far, slot to type name (a later one for the same
/// slot wins).
pub open spec fn edit_map(edits: Seq<(usize, String)>) -> Map<int, Seq<char>>
    decreases edits.len(),
{
    if edits.len() == 0 {
        Map::empty()
    } else {
        edit_map(edits.drop_last()).insert(edits.last().0 as int, edits.last().1@)
    }
}

/// No type replaced.
pub open spec fn no_edits() -> Map<int, Seq<char>> {
    Map::empty()
}

impl Rendering {
    pub closed spec fn source(&self) -> Seq<char> {
        self.source@
    }

    pub closed spec fn index(&self) -> int {
        self.index as int
    }

    pub closed spec fn edits(&self) -> Map<int, Seq<char>> {
        edit_map(self.edits@)
    }
}

/// Clones statement `i` of a parsed text, with no type replaced yet.
#[verifier::external_body]
fn start_rendering(p: &ParsedSql, i: usize) -> (r: Rendering)
    requires
        p.wf(),
        i < p.statements().len(),
    ensures
        r.source() == p.source(),
        r.index() == i,
        r.edits() == no_edits(),
{
    Rendering { ast: p.asts[i].clone(), source: p.source.clone(), index: i, edits: Vec::new() }
}

/// Sets the data type in column slot `k` to `DataType::Custom` of the single
/// identifier `native`.
#[verifier::external_body]
fn set_column_type(r: &mut Rendering, k: usize, native: &str)
    requires
        sql_parse(old(r).source()) is Ok,
        0 <= old(r).index() < sql_parse(old(r).source())->Ok_0.len(),
        has_column_slot(stmt_at(old(r).source(), old(r).index()), k as int),
    ensures
        final(r).source() == old(r).source(),
        final(r).index() == old(r).index(),
        final(r).edits() == old(r).edits().insert(k as int, native@),
{
    let ty = DataType::Custom(ObjectName(vec![Ident::new(native)]), vec![]);
    match &mut r.ast {
        Statement::CreateTable(ct) => ct.columns[k].data_type = ty,
        Statement::AlterTable { operations, .. } => match &mut operations[k] {
            AlterTableOperation::AddColumn { column_def, .. } => column_def.data_type = ty,
            _ => {},
        },
        _ => {},
    }
    r.edits.push((k, native.to_string()));
}

/// The statement as `sqlparser`'s `Display` prints it.
#[verifier::external_body]
fn rendered(r: &Rendering) -> (s: String)
    ensures
        s@ == sql_render(r.source(), r.index(), r.edits()),
{
    r.ast.to_string()
}

// ===== the model, built from the trusted reads =====

/// The column in slot `k` of statement `i`.
fn read_column(p: &ParsedSql, i: usize, k: usize) -> (r: Column)
    requires
        p.wf(),
        i < p.statements().len(),
        has_column_slot(p.statements()[i as int], k as int),
    ensures
        r@ == column_slot(p.statements()[i as int], k as int),
{
    let c = column_ref(p, i, k);
    let (name, name_display) = column_name(&c);
    let ty = column_type(&c);
    let ty_debug = column_type_debug(&c);
    let n = option_count(&c);
    let mut options: Vec<ColumnOpt> = Vec::new();
    for j in 0..n
        invariant
            n == c.column().options.len(),
            opt_views(options@) == c.column().options.take(j as int),
    {
        let o = column_option(&c, j);
        let ghost before = opt_views(options@);
        options.push(o);
        assert(opt_views(options@) =~= before.push(o@));
        assert(c.column().options.take(j + 1) =~= c.column().options.take(j as int).push(o@));
    }
    assert(c.column().options.take(n as int) =~= c.column().options);
    let r = Column { name, name_display, ty, ty_debug, options };
    assert(r@ == c.column());
    r
}

/// The constraint in slot `k` of statement `i`.
fn read_constraint(p: &ParsedSql, i: usize, k: usize) -> (r: Constraint)
    requires
        p.wf(),
        i < p.statements().len(),
        has_constraint_slot(p.statements()[i as int], k as int),
    ensures
        r@ == constraint_slot(p.statements()[i as int], k as int),
{
    let c = constraint_ref(p, i, k);
    constraint_model(&c)
}

/// Statement `i` of a parsed text, as the model.
fn read_statement(p: &ParsedSql, i: usize) -> (r: Stmt)
    requires
        p.wf(),
        i < p.statements().len(),
    ensures
        r@ == p.statements()[i as int],
{
    let ghost s = p.statements()[i as int];
    match stmt_kind(p, i) {
        StmtKind::CreateTable => {
            let name = stmt_name(p, i);
            let n = slot_count(p, i);
            let mut columns: Vec<Column> = Vec::new();
            for k in 0..n
                invariant
                    p.wf(),
                    i < p.statements().len(),
                    s == p.statements()[i as int],
                    s is CreateTable,
                    n == s->CreateTable_columns.len(),
                    col_views(columns@) == s->CreateTable_columns.take(k as int),
            {
                let c = read_column(p, i, k);
                let ghost before = col_views(columns@);
                let ghost cv = c@;
                columns.push(c);
                assert(col_views(columns@) =~= before.push(cv));
                assert(s->CreateTable_columns.take(k + 1) =~= s->CreateTable_columns.take(
                    k as int,
                ).push(cv));
            }
            let m = constraint_count(p, i);
            let mut constraints: Vec<Constraint> = Vec::new();
            for k in 0..m
                invariant
                    p.wf(),
                    i < p.statements().len(),
                    s == p.statements()[i as int],
                    s is CreateTable,
                    m == s->CreateTable_constraints.len(),
                    con_views(constraints@) == s->CreateTable_constraints.take(k as int),
            {
                let c = read_constraint(p, i, k);
                let ghost before = con_views(constraints@);
                let ghost cv = c@;
                constraints.push(c);
                assert(con_views(constraints@) =~= before.push(cv));
                assert(s->CreateTable_constraints.take(k + 1) =~= s->CreateTable_constraints.take(
                    k as int,
                ).push(cv));
            }
            assert(s->CreateTable_columns.take(n as int) =~= s->CreateTable_columns);
            assert(s->CreateTable_constraints.take(m as int) =~= s->CreateTable_constraints);
            Stmt::CreateTable { name, columns, constraints }
        },
        StmtKind::AlterTable => {
            let name = stmt_name(p, i);
            let n = slot_count(p, i);
            let mut ops: Vec<AlterOp> = Vec::new();
            for k in 0..n
                invariant
                    p.wf(),
                    i < p.statements().len(),
                    s == p.statements()[i as int],
                    s is AlterTable,
                    n == s->AlterTable_ops.len(),
                    op_views(ops@) == s->AlterTable_ops.take(k as int),
            {
                let o = match op_kind(p, i, k) {
                    OpKind::AddColumn => AlterOp::AddColumn { column: read_column(p, i, k) },
                    OpKind::DropColumn => AlterOp::DropColumn { name: dropped_column(p, i, k) },
                    OpKind::AddConstraint => AlterOp::AddConstraint {
                        constraint: read_constraint(p, i, k),
                    },
                    OpKind::Other => AlterOp::Other,
                };
                assert(o@ == s->AlterTable_ops[k as int]);
                let ghost before = op_views(ops@);
                let ghost ovk = o@;
                ops.push(o);
                assert(op_views(ops@) =~= before.push(ovk));
                assert(s->AlterTable_ops.take(k + 1) =~= s->AlterTable_ops.take(k as int).push(ovk));
            }
            assert(s->AlterTable_ops.take(n as int) =~= s->AlterTable_ops);
            Stmt::AlterTable { name, ops }
        },
        StmtKind::Other => Stmt::Other,
    }
}

/// The model of every statement of a parsed text.
pub fn statements(p: &ParsedSql) -> (r: Vec<Stmt>)
    requires
        p.wf(),
    ensures
        stmt_views(r@) == p.statements(),
{
    let n = p.len();
    let mut r: Vec<Stmt> = Vec::new();
    for i in 0..n
        invariant
            p.wf(),
            n == p.statements().len(),
            stmt_views(r@) == p.statements().take(i as int),
    {
        let s = read_statement(p, i);
        let ghost before = stmt_views(r@);
        let ghost sv = s@;
        r.push(s);
        assert(stmt_views(r@) =~= before.push(sv));
        assert(p.statements().take(i + 1) =~= p.statements().take(i as int).push(sv));
    }
    assert(p.statements().take(n as int) =~= p.statements());
    r
}

/// The replacements that give each column slot of a statement its native
/// type: `natives` in order over the columns of a `CREATE TABLE`, over the
/// `ADD COLUMN` operations of an `ALTER TABLE`.
pub open spec fn slot_edits(s: StmtV, natives: Seq<Seq<char>>) -> Map<int, Seq<char>> {
    match s {
        StmtV::CreateTable { columns, .. } => Map::new(
            |k: int| 0 <= k < columns.len(),
            |k: int| natives[k],
        ),
        StmtV::AlterTable { ops, .. } => Map::new(
            |k: int| 0 <= k < ops.len() && ops[k] is AddColumn,
            |k: int| natives[added_before(ops, k)],
        ),
        StmtV::Other => Map::empty(),
    }
}

/// The number of `ADD COLUMN` operations before operation `k`.
pub open spec fn added_before(ops: Seq<AlterOpV>, k: int) -> int
    decreases k,
{
    if k <= 0 {
        0
    } else {
        added_before(ops, k - 1) + if ops[k - 1] is AddColumn {
            1int
        } else {
            0
        }
    }
}

/// Prints statement `i` with the type of each column slot replaced by its
/// native type name, in slot order.
pub fn render_statement(p: &ParsedSql, i: usize, stmt: &Stmt, natives: &Vec<String>) -> (r: String)
    requires
        p.wf(),
        i < p.statements().len(),
        stmt@ == p.statements()[i as int],
        match stmt@ {
            StmtV::CreateTable { columns, .. } => natives.len() == columns.len(),
            StmtV::AlterTable { ops, .. } => natives.len() == added_before(ops, ops.len() as int),
            StmtV::Other => true,
        },
    ensures
        r@ == sql_render(p.source(), i as int, slot_edits(stmt@, views(natives@))),
{
    let ghost s = stmt@;
    let ghost nv = views(natives@);
    let mut out = start_rendering(p, i);
    match stmt {
        Stmt::CreateTable { columns, .. } => {
            let n = columns.len();
            for k in 0..n
                invariant
                    p.wf(),
                    i < p.statements().len(),
                    s == p.statements()[i as int],
                    s == stmt@,
                    nv == views(natives@),
                    stmt matches Stmt::CreateTable { columns: cs, .. } && cs@.len() == n,
                    natives.len() == n,
                    out.source() == p.source(),
                    out.index() == i,
                    out.edits() == Map::new(|j: int| 0 <= j < k, |j: int| nv[j]),
            {
                let ghost before = out.edits();
                set_column_type(&mut out, k, natives[k].as_str());
                assert(out.edits() =~= Map::new(|j: int| 0 <= j < k + 1, |j: int| nv[j]));
            }
            assert(out.edits() =~= slot_edits(s, nv));
        },
        Stmt::AlterTable { ops, .. } => {
            let ghost ov = op_views(ops@);
            let n = ops.len();
            let mut added: usize = 0;
            for k in 0..n
                invariant
                    p.wf(),
                    i < p.statements().len(),
                    s == p.statements()[i as int],
                    s == stmt@,
                    nv == views(natives@),
                    ov == op_views(ops@),
                    n == ops.len(),
                    s matches StmtV::AlterTable { ops: os, .. } && os == ov,
                    natives.len() == added_before(ov, n as int),
                    added == added_before(ov, k as int),
                    added_before(ov, k as int) <= added_before(ov, n as int),
                    out.source() == p.source(),
                    out.index() == i,
                    out.edits() == Map::new(
                        |j: int| 0 <= j < k && ov[j] is AddColumn,
                        |j: int| nv[added_before(ov, j)],
                    ),
            {
                proof {
                    lemma_added_before_mono(ov, k + 1, n as int);
                }
                assert(ov[k as int] == ops@[k as int]@);
                if let AlterOp::AddColumn { .. } = &ops[k] {
                    set_column_type(&mut out, k, natives[added].as_str());
                    added = added + 1;
                }
                assert(out.edits() =~= Map::new(
                    |j: int| 0 <= j < k + 1 && ov[j] is AddColumn,
                    |j: int| nv[added_before(ov, j)],
                ));
            }
            assert(out.edits() =~= slot_edits(s, nv));
        },
        Stmt::Other => {
            assert(out.edits() =~= slot_edits(s, nv));
        },
    }
    rendered(&out)
}

proof fn lemma_added_before_mono(ops: Seq<AlterOpV>, k: int, n: int)
    requires
        0 <= k <= n,
    ensures
        added_before(ops, k) <= added_before(ops, n),
    decreases n - k,
{
    if k < n {
        lemma_added_before_mono(ops, k, n - 1);
    }
}

} // verus!
