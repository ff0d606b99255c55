//! Rendering the schema model as `schema.rs`: one `diesel::table!` per table,
//! then `joinable!` per foreign key and `allow_tables_to_appear_in_same_query!`.
use crate::mapping::mapping;
use crate::model::{
    alter_op, alter_step, apply_stmt, create_table, find_table, model_columns, named, not_named,
    object_ident, unmapped, with_fks, Model, ModelColumnV, ModelTable, ModelTableV,
};
use crate::sqlparse::{AlterOpV, StmtV};
use crate::text::{lemma_first_index_bounds, lemma_lex_total_ordering};
use crate::sqlparse::SqlType;
use crate::text::{
    chars_of, join, join_strings, lex_leq, sort_strings, starts_with, starts_with_lit,
    string_from, views,
};
use vstd::prelude::*;

verus! {

// ===== marker paths =====

/// The start of the last `"::"` in `m` at or before position `i`, or -1.
pub open spec fn last_sep_from(m: Seq<char>, i: int) -> int
    decreases i + 1,
{
    if i < 0 {
        -1
    } else if i + 1 < m.len() && m[i] == ':' && m[i + 1] == ':' {
        i
    } else {
        last_sep_from(m, i - 1)
    }
}

/// Where `m.rfind("::")` is, or -1.
pub open spec fn marker_sep(m: Seq<char>) -> int {
    last_sep_from(m, m.len() - 2)
}

/// The module path of a qualified marker (before the last `::`).
pub open spec fn marker_path(m: Seq<char>) -> Seq<char> {
    m.take(marker_sep(m))
}

/// The type name of a qualified marker (after the last `::`).
pub open spec fn marker_name(m: Seq<char>) -> Seq<char> {
    m.skip(marker_sep(m) + 2)
}

pub proof fn lemma_last_sep_from(m: Seq<char>, i: int)
    ensures
        -1 <= last_sep_from(m, i),
        last_sep_from(m, i) >= 0 ==> last_sep_from(m, i) <= i && last_sep_from(m, i) + 1 < m.len()
            && m[last_sep_from(m, i)] == ':',
    decreases i + 1,
{
    if i >= 0 {
        lemma_last_sep_from(m, i - 1);
    }
}

/// Every marker of the mapping table is qualified.
pub proof fn lemma_mapping_markers_qualified(t: SqlType)
    ensures
        mapping(t) is Some ==> marker_sep(mapping(t)->Some_0.marker) >= 0,
{
    reveal_with_fuel(last_sep_from, 12);
    reveal_strlit("diesel_dualdb::sql_types::Uuid");
    reveal_strlit("diesel_dualdb::sql_types::Timestamp");
    reveal_strlit("diesel_dualdb::sql_types::Json");
    reveal_strlit("diesel_dualdb::sql_types::Bytes");
    reveal_strlit("diesel::sql_types::Text");
    reveal_strlit("diesel::sql_types::SmallInt");
    reveal_strlit("diesel::sql_types::Integer");
    reveal_strlit("diesel::sql_types::BigInt");
    reveal_strlit("diesel::sql_types::Float");
    reveal_strlit("diesel::sql_types::Bool");
}

/// A native type name: one token of upper-case ASCII letters.
pub open spec fn is_native_token(s: Seq<char>) -> bool {
    s.len() > 0 && forall|i: int| 0 <= i < s.len() ==> 'A' <= #[trigger] s[i] <= 'Z'
}

/// A marker type name: a non-empty run of ASCII letters.
pub open spec fn is_type_name(s: Seq<char>) -> bool {
    s.len() > 0 && forall|i: int|
        0 <= i < s.len() ==> ('A' <= #[trigger] s[i] <= 'Z' || 'a' <= s[i] <= 'z')
}

/// The shape of every entry of the mapping table: each native spelling is a
/// single token, and each marker is `diesel::sql_types::N` or
/// `diesel_dualdb::sql_types::N` for a type name `N`.
pub proof fn lemma_mapping_shape(t: SqlType)
    ensures
        mapping(t) matches Some(m) ==> {
            &&& is_native_token(m.pg)
            &&& is_native_token(m.sqlite)
            &&& marker_path(m.marker) == "diesel::sql_types"@ || marker_path(m.marker)
                == "diesel_dualdb::sql_types"@
            &&& is_type_name(marker_name(m.marker))
            &&& m.marker == marker_path(m.marker) + "::"@ + marker_name(m.marker)
        },
{
    lemma_mapping_markers_qualified(t);
    reveal_with_fuel(last_sep_from, 12);
    reveal_strlit("diesel::sql_types");
    reveal_strlit("diesel_dualdb::sql_types");
    reveal_strlit("::");
    reveal_strlit("UUID");
    reveal_strlit("BLOB");
    reveal_strlit("TIMESTAMPTZ");
    reveal_strlit("TEXT");
    reveal_strlit("JSONB");
    reveal_strlit("BYTEA");
    reveal_strlit("SMALLINT");
    reveal_strlit("INTEGER");
    reveal_strlit("BIGINT");
    reveal_strlit("REAL");
    reveal_strlit("BOOLEAN");
    reveal_strlit("diesel_dualdb::sql_types::Uuid");
    reveal_strlit("diesel_dualdb::sql_types::Timestamp");
    reveal_strlit("diesel_dualdb::sql_types::Json");
    reveal_strlit("diesel_dualdb::sql_types::Bytes");
    reveal_strlit("diesel::sql_types::Text");
    reveal_strlit("diesel::sql_types::SmallInt");
    reveal_strlit("diesel::sql_types::Integer");
    reveal_strlit("diesel::sql_types::BigInt");
    reveal_strlit("diesel::sql_types::Float");
    reveal_strlit("diesel::sql_types::Bool");
    if let Some(m) = mapping(t) {
        let k = marker_sep(m.marker);
        assert(marker_path(m.marker) =~= m.marker.take(k));
        if marker_path(m.marker) =~= "diesel::sql_types"@ {
        } else {
            assert(marker_path(m.marker) =~= "diesel_dualdb::sql_types"@);
        }
        assert(m.marker =~= marker_path(m.marker) + "::"@ + marker_name(m.marker));
    }
}

/// Splits a qualified marker at its last `::` into (path, name).
pub fn marker_parts(marker: &str) -> (r: (String, String))
    requires
        marker_sep(marker@) >= 0,
    ensures
        r.0@ == marker_path(marker@),
        r.1@ == marker_name(marker@),
{
    let m = chars_of(marker);
    proof {
        lemma_last_sep_from(m@, m@.len() - 2);
    }
    let mut i: usize = m.len() - 2;
    while !(m[i] == ':' && m[i + 1] == ':')
        invariant
            i + 1 < m.len(),
            0 <= last_sep_from(m@, i as int),
            last_sep_from(m@, i as int) == marker_sep(m@),
        decreases i,
    {
        proof {
            lemma_last_sep_from(m@, i - 1);
        }
        i = i - 1;
    }
    (string_from(&m, 0, i), string_from(&m, i + 2, m.len()))
}


// ===== one `table!` block =====

/// The marker comes from `diesel_dualdb` (else from diesel).
pub open spec fn is_dualdb_marker(m: Seq<char>) -> bool {
    starts_with(marker_path(m), "diesel_dualdb"@)
}

/// The type names of the columns whose marker is (`dualdb`) or is not a
/// `diesel_dualdb` marker, each once, in order of first appearance.
pub open spec fn bucket(cols: Seq<ModelColumnV>, dualdb: bool) -> Seq<Seq<char>>
    decreases cols.len(),
{
    if cols.len() == 0 {
        Seq::empty()
    } else {
        let u = bucket(cols.drop_last(), dualdb);
        let c = cols.last();
        if is_dualdb_marker(c.marker) == dualdb && !u.contains(marker_name(c.marker)) {
            u.push(marker_name(c.marker))
        } else {
            u
        }
    }
}

pub open spec fn any_nullable(cols: Seq<ModelColumnV>) -> bool {
    exists|k: int| 0 <= k < cols.len() && #[trigger] cols[k].nullable
}

/// The names a table imports from `diesel::sql_types`: its diesel markers,
/// plus `Nullable` when a column is nullable, sorted.
pub open spec fn diesel_imports(cols: Seq<ModelColumnV>) -> Seq<Seq<char>> {
    let names = bucket(cols, false);
    let names = if any_nullable(cols) && !names.contains("Nullable"@) {
        names.push("Nullable"@)
    } else {
        names
    };
    names.sort_by(lex_leq())
}

/// The names a table imports from `diesel_dualdb::sql_types`, sorted.
pub open spec fn dualdb_imports(cols: Seq<ModelColumnV>) -> Seq<Seq<char>> {
    bucket(cols, true).sort_by(lex_leq())
}

/// A `use` line inside `table!`: none for no names, a plain import for one, a
/// braced list for several.
pub open spec fn use_line(path: Seq<char>, names: Seq<Seq<char>>) -> Seq<char> {
    if names.len() == 0 {
        Seq::empty()
    } else if names.len() == 1 {
        "    use "@ + path + "::"@ + names[0] + ";\n"@
    } else {
        "    use "@ + path + "::{"@ + join(names, ", "@) + "};\n"@
    }
}

/// The key columns of `table!`: the declared primary key, or else the first
/// column.
pub open spec fn pk_columns(t: ModelTableV) -> Seq<Seq<char>> {
    if t.primary_key.len() == 0 {
        if t.columns.len() > 0 {
            seq![t.columns[0].name]
        } else {
            Seq::empty()
        }
    } else {
        t.primary_key
    }
}

impl ModelTable {
    /// The key columns of `table!`: the declared primary key, or else the
    /// first column.
    pub fn primary_key_cols(&self) -> (r: Vec<String>)
        ensures
            views(r@) == pk_columns(self@),
    {
        if self.primary_key.len() == 0 {
            if self.columns.len() > 0 {
                let first = vec![self.columns[0].name.clone()];
                assert(views(first@) =~= seq![self@.columns[0].name]);
                first
            } else {
                let none: Vec<String> = Vec::new();
                assert(views(none@) =~= Seq::<Seq<char>>::empty());
                none
            }
        } else {
            self.primary_key.clone()
        }
    }
}

pub open spec fn column_type(c: ModelColumnV) -> Seq<char> {
    if c.nullable {
        "Nullable<"@ + marker_name(c.marker) + ">"@
    } else {
        marker_name(c.marker)
    }
}

pub open spec fn column_lines(cols: Seq<ModelColumnV>) -> Seq<char>
    decreases cols.len(),
{
    if cols.len() == 0 {
        Seq::empty()
    } else {
        column_lines(cols.drop_last()) + ("        "@ + cols.last().name + " -> "@ + column_type(
            cols.last(),
        ) + ",\n"@)
    }
}

/// The `diesel::table!` block of one table.
pub open spec fn table_macro(t: ModelTableV) -> Seq<char> {
    "diesel::table! {\n"@ + use_line("diesel::sql_types"@, diesel_imports(t.columns)) + use_line(
        "diesel_dualdb::sql_types"@,
        dualdb_imports(t.columns),
    ) + "\n    "@ + t.name + " ("@ + join(pk_columns(t), ", "@) + ") {\n"@ + column_lines(t.columns)
        + "    }\n}"@
}

/// A column whose marker is (`dualdb`) or is not a `diesel_dualdb` marker and
/// whose type name is `n`.
pub open spec fn has_marker_named(cols: Seq<ModelColumnV>, dualdb: bool, n: Seq<char>) -> bool {
    exists|k: int|
        0 <= k < cols.len() && is_dualdb_marker(#[trigger] cols[k].marker) == dualdb && marker_name(
            cols[k].marker,
        ) == n
}

proof fn lemma_bucket(cols: Seq<ModelColumnV>, dualdb: bool)
    ensures
        bucket(cols, dualdb).no_duplicates(),
        forall|n: Seq<char>| #[trigger] bucket(cols, dualdb).contains(n) <==> has_marker_named(cols, dualdb, n),
    decreases cols.len(),
{
    if cols.len() > 0 {
        let d = cols.drop_last();
        lemma_bucket(d, dualdb);
        let c = cols.last();
        let u = bucket(d, dualdb);
        assert forall|n: Seq<char>| #[trigger] bucket(cols, dualdb).contains(n) <==> has_marker_named(
            cols,
            dualdb,
            n,
        ) by {
            if has_marker_named(cols, dualdb, n) {
                let k = choose|k: int|
                    0 <= k < cols.len() && is_dualdb_marker(#[trigger] cols[k].marker) == dualdb
                        && marker_name(cols[k].marker) == n;
                if k < cols.len() - 1 {
                    assert(d[k] == cols[k]);
                    assert(has_marker_named(d, dualdb, n));
                    assert(u.contains(n));
                    if is_dualdb_marker(c.marker) == dualdb && !u.contains(marker_name(c.marker)) {
                        assert(u.push(marker_name(c.marker))[u.index_of(n)] == n);
                    }
                } else {
                    if !u.contains(n) {
                        assert(u.push(n)[u.len() as int] == n);
                    }
                }
            }
            if bucket(cols, dualdb).contains(n) {
                if u.contains(n) {
                    let k = choose|k: int|
                        0 <= k < d.len() && is_dualdb_marker(#[trigger] d[k].marker) == dualdb
                            && marker_name(d[k].marker) == n;
                    assert(cols[k] == d[k]);
                } else {
                    assert(cols[cols.len() - 1] == c);
                }
            }
        }
    }
}

proof fn lemma_sorted_names(s: Seq<Seq<char>>)
    requires
        s.no_duplicates(),
    ensures
        s.sort_by(lex_leq()).no_duplicates(),
        forall|n: Seq<char>| #[trigger] s.sort_by(lex_leq()).contains(n) <==> s.contains(n),
{
    broadcast use vstd::seq_lib::group_to_multiset_ensures;
    broadcast use vstd::multiset::group_multiset_axioms;

    lemma_lex_total_ordering();
    s.lemma_sort_by_ensures(lex_leq());
    let t = s.sort_by(lex_leq());
    s.lemma_multiset_has_no_duplicates();
    assert forall|n: Seq<char>| #[trigger] t.contains(n) <==> s.contains(n) by {
        vstd::seq_lib::to_multiset_contains(s, n);
        vstd::seq_lib::to_multiset_contains(t, n);
    }
    assert forall|x: Seq<char>| t.to_multiset().contains(x) implies t.to_multiset().count(x) == 1 by {
        assert(s.to_multiset().contains(x));
    }
    t.lemma_multiset_has_no_duplicates_conv();
}

/// The `use` lines of a `table!` block import each name once: a name is
/// imported from `diesel::sql_types` exactly when some column's marker is a
/// diesel marker of that name, or the name is `Nullable` and some column is
/// nullable; a name is imported from `diesel_dualdb::sql_types` exactly when
/// some column's marker is a `diesel_dualdb` marker of that name.
pub proof fn lemma_imports_once(cols: Seq<ModelColumnV>)
    ensures
        diesel_imports(cols).no_duplicates(),
        dualdb_imports(cols).no_duplicates(),
        forall|n: Seq<char>|
            #[trigger] diesel_imports(cols).contains(n) <==> (has_marker_named(cols, false, n) || (n
                == "Nullable"@ && exists|k: int| 0 <= k < cols.len() && #[trigger] cols[k].nullable)),
        forall|n: Seq<char>| #[trigger] dualdb_imports(cols).contains(n) <==> has_marker_named(cols, true, n),
{
    lemma_bucket(cols, false);
    lemma_bucket(cols, true);
    let b = bucket(cols, false);
    let names = if any_nullable(cols) && !b.contains("Nullable"@) {
        b.push("Nullable"@)
    } else {
        b
    };
    if any_nullable(cols) && !b.contains("Nullable"@) {
        assert forall|n: Seq<char>| #[trigger] names.contains(n) <==> (b.contains(n) || n == "Nullable"@) by {
            if n == "Nullable"@ {
                assert(names[b.len() as int] == n);
            }
            if b.contains(n) {
                assert(names[b.index_of(n)] == n);
            }
        }
    }
    lemma_sorted_names(names);
    lemma_sorted_names(bucket(cols, true));
}

/// Every column marker of the table is qualified.
pub open spec fn qualified(cols: Seq<ModelColumnV>) -> bool {
    forall|k: int| 0 <= k < cols.len() ==> marker_sep(#[trigger] cols[k].marker) >= 0
}

/// `views(v).contains(s)`.
pub fn contains_string(v: &Vec<String>, s: &String) -> (r: bool)
    ensures
        r == views(v@).contains(s@),
{
    for i in 0..v.len()
        invariant
            forall|k: int| 0 <= k < i ==> views(v@)[k] != s@,
    {
        if v[i] == *s {
            assert(views(v@)[i as int] == s@);
            return true;
        }
    }
    false
}

/// The `use` line for `names` under `path`, if there are any names.
fn render_use(path: &str, names: &Vec<String>) -> (r: Option<String>)
    ensures
        r is None <==> names.len() == 0,
        r matches Some(line) ==> line@ == use_line(path@, views(names@)),
{
    if names.len() == 0 {
        None
    } else if names.len() == 1 {
        let mut out = String::from_str("    use ");
        out.append(path);
        out.append("::");
        out.append(names[0].as_str());
        out.append(";\n");
        Some(out)
    } else {
        let mut out = String::from_str("    use ");
        out.append(path);
        out.append("::{");
        let joined = join_strings(names, ", ");
        out.append(joined.as_str());
        out.append("};\n");
        Some(out)
    }
}

/// Renders one table's `diesel::table!` block.
pub fn render_table_macro(t: &ModelTable) -> (r: String)
    requires
        qualified(t@.columns),
    ensures
        r@ == table_macro(t@),
{
    let ghost cols = t@.columns;
    let mut diesel_names: Vec<String> = Vec::new();
    let mut dualdb_names: Vec<String> = Vec::new();
    let mut nullable_seen = false;
    let n = t.columns.len();
    for i in 0..n
        invariant
            n == t.columns.len(),
            cols == t@.columns,
            qualified(cols),
            views(diesel_names@) == bucket(cols.take(i as int), false),
            views(dualdb_names@) == bucket(cols.take(i as int), true),
            nullable_seen == exists|k: int| 0 <= k < i && #[trigger] cols[k].nullable,
    {
        let c = &t.columns[i];
        assert(cols[i as int] == c@);
        assert(marker_sep(cols[i as int].marker) >= 0);
        let (path, name) = marker_parts(c.marker);
        let path_chars = chars_of(path.as_str());
        let dualdb = starts_with_lit(&path_chars, 0, path_chars.len(), "diesel_dualdb");
        assert(path_chars@.subrange(0, path_chars@.len() as int) =~= path_chars@);
        assert(cols.take(i + 1).drop_last() =~= cols.take(i as int));
        if dualdb {
            if !contains_string(&dualdb_names, &name) {
                dualdb_names.push(name);
            }
        } else {
            if !contains_string(&diesel_names, &name) {
                diesel_names.push(name);
            }
        }
        assert(views(diesel_names@) =~= bucket(cols.take(i + 1), false));
        assert(views(dualdb_names@) =~= bucket(cols.take(i + 1), true));
        if c.nullable {
            nullable_seen = true;
            assert(cols[i as int].nullable);
        }
    }
    assert(cols.take(n as int) =~= cols);
    let nullable_name = String::from_str("Nullable");
    if nullable_seen && !contains_string(&diesel_names, &nullable_name) {
        diesel_names.push(nullable_name);
    }
    assert(views(diesel_names@) =~= if any_nullable(cols) && !bucket(cols, false).contains(
        "Nullable"@,
    ) {
        bucket(cols, false).push("Nullable"@)
    } else {
        bucket(cols, false)
    });
    let diesel_names = sort_strings(diesel_names);
    let dualdb_names = sort_strings(dualdb_names);
    let mut out = String::from_str("diesel::table! {\n");
    if let Some(line) = render_use("diesel::sql_types", &diesel_names) {
        out.append(line.as_str());
    }
    if let Some(line) = render_use("diesel_dualdb::sql_types", &dualdb_names) {
        out.append(line.as_str());
    }
    assert(out@ =~= "diesel::table! {\n"@ + use_line("diesel::sql_types"@, diesel_imports(cols))
        + use_line("diesel_dualdb::sql_types"@, dualdb_imports(cols)));
    out.append("\n    ");
    out.append(t.name.as_str());
    out.append(" (");
    let key = t.primary_key_cols();
    let joined = join_strings(&key, ", ");
    out.append(joined.as_str());
    out.append(") {\n");
    let ghost head = out@;
    for i in 0..n
        invariant
            n == t.columns.len(),
            cols == t@.columns,
            qualified(cols),
            out@ == head + column_lines(cols.take(i as int)),
    {
        let c = &t.columns[i];
        assert(cols[i as int] == c@);
        assert(marker_sep(cols[i as int].marker) >= 0);
        let (_, name) = marker_parts(c.marker);
        out.append("        ");
        out.append(c.name.as_str());
        out.append(" -> ");
        if c.nullable {
            out.append("Nullable<");
            out.append(name.as_str());
            out.append(">");
        } else {
            out.append(name.as_str());
        }
        out.append(",\n");
        assert(cols.take(i + 1).drop_last() =~= cols.take(i as int));
        assert(out@ =~= head + column_lines(cols.take(i + 1)));
    }
    assert(cols.take(n as int) =~= cols);
    out.append("    }\n}");
    assert(out@ =~= table_macro(t@));
    out
}


// ===== the whole `schema.rs` =====

pub open spec fn table_blocks(tables: Seq<ModelTableV>) -> Seq<Seq<char>> {
    tables.map_values(|t: ModelTableV| table_macro(t))
}

pub open spec fn joinable_line(table: Seq<char>, fk: (Seq<char>, Seq<char>)) -> Seq<char> {
    "diesel::joinable!("@ + table + " -> "@ + fk.1 + " ("@ + fk.0 + "));"@
}

/// One `joinable!` per foreign key of one table.
pub open spec fn table_joinables(t: ModelTableV) -> Seq<Seq<char>> {
    t.foreign_keys.map_values(|fk: (Seq<char>, Seq<char>)| joinable_line(t.name, fk))
}

/// The `joinable!` lines of all tables, table by table.
pub open spec fn joinables(tables: Seq<ModelTableV>) -> Seq<Seq<char>>
    decreases tables.len(),
{
    if tables.len() == 0 {
        Seq::empty()
    } else {
        joinables(tables.drop_last()) + table_joinables(tables.last())
    }
}

pub open spec fn table_names(tables: Seq<ModelTableV>) -> Seq<Seq<char>> {
    tables.map_values(|t: ModelTableV| t.name)
}

pub open spec fn schema_header() -> Seq<char> {
    "// @generated by diesel-dualdb-schema — do not edit by hand.\n\n"@
}

/// `schema.rs`: the header, the `table!` blocks, and, when there are foreign
/// keys, their `joinable!` lines and one `allow_tables_to_appear_in_same_query!`
/// over all tables.
pub open spec fn schema_rs(tables: Seq<ModelTableV>) -> Seq<char> {
    let j = joinables(tables);
    schema_header() + join(table_blocks(tables), "\n\n"@) + (if j.len() == 0 {
        Seq::empty()
    } else {
        "\n\n"@ + join(j, "\n"@) + "\n\ndiesel::allow_tables_to_appear_in_same_query!(\n    "@
            + join(table_names(tables), ",\n    "@) + ",\n);"@
    }) + "\n"@
}

/// Every column marker of every table is qualified.
pub open spec fn model_qualified(tables: Seq<ModelTableV>) -> bool {
    forall|i: int| 0 <= i < tables.len() ==> qualified(#[trigger] tables[i].columns)
}

proof fn lemma_filter_qualified(cols: Seq<ModelColumnV>, p: spec_fn(ModelColumnV) -> bool)
    requires
        qualified(cols),
    ensures
        qualified(cols.filter(p)),
    decreases cols.len(),
{
    reveal(Seq::filter);
    if cols.len() > 0 {
        lemma_filter_qualified(cols.drop_last(), p);
        assert(marker_sep(cols[cols.len() - 1].marker) >= 0);
    }
}

proof fn lemma_alter_op_qualified(tables: Seq<ModelTableV>, table: Seq<char>, op: AlterOpV)
    requires
        model_qualified(tables),
        alter_op(tables, table, op) is Ok,
    ensures
        model_qualified(alter_op(tables, table, op)->Ok_0),
{
    let i = find_table(tables, table);
    lemma_first_index_bounds(tables, named(table));
    let r = alter_op(tables, table, op)->Ok_0;
    match op {
        AlterOpV::AddColumn { column } => {
            lemma_mapping_markers_qualified(column.ty);
            assert forall|j: int| 0 <= j < r.len() implies qualified(#[trigger] r[j].columns) by {
                if j != i {
                    assert(r[j] == tables[j]);
                } else {
                    assert(qualified(tables[i].columns));
                    let cols = r[j].columns;
                    assert forall|k: int| 0 <= k < cols.len() implies marker_sep(
                        #[trigger] cols[k].marker,
                    ) >= 0 by {
                        if k < tables[i].columns.len() {
                            assert(cols[k] == tables[i].columns[k]);
                        }
                    }
                }
            }
        },
        AlterOpV::DropColumn { name } => {
            if i < tables.len() {
                assert(qualified(tables[i].columns));
                lemma_filter_qualified(tables[i].columns, not_named(name));
                assert forall|j: int| 0 <= j < r.len() implies qualified(#[trigger] r[j].columns) by {
                    if j != i {
                        assert(r[j] == tables[j]);
                    }
                }
            }
        },
        _ => {
            assert forall|j: int| 0 <= j < r.len() implies qualified(#[trigger] r[j].columns) by {
                if j != i {
                    assert(r[j] == tables[j]);
                } else {
                    assert(qualified(tables[j].columns));
                }
            }
        },
    }
}

proof fn lemma_alter_fold_qualified(tables: Seq<ModelTableV>, table: Seq<char>, ops: Seq<AlterOpV>)
    requires
        model_qualified(tables),
        ops.fold_left(Ok(tables), alter_step(table)) is Ok,
    ensures
        model_qualified(ops.fold_left(Ok(tables), alter_step(table))->Ok_0),
    decreases ops.len(),
{
    if ops.len() > 0 {
        let prev = ops.drop_last().fold_left(Ok(tables), alter_step(table));
        if prev is Err {
            assert(ops.fold_left(Ok(tables), alter_step(table)) is Err);
        } else {
            lemma_alter_fold_qualified(tables, table, ops.drop_last());
            lemma_alter_op_qualified(prev->Ok_0, table, ops.last());
        }
    }
}

/// Folding a statement into a model keeps every column marker qualified.
pub proof fn lemma_apply_qualified(tables: Seq<ModelTableV>, s: StmtV)
    requires
        model_qualified(tables),
        apply_stmt(tables, s) is Ok,
    ensures
        model_qualified(apply_stmt(tables, s)->Ok_0),
{
    match s {
        StmtV::CreateTable { name, columns, constraints } => {
            lemma_first_index_bounds(columns, unmapped());
            let r = apply_stmt(tables, s)->Ok_0;
            let cols = model_columns(columns);
            assert forall|k: int| 0 <= k < cols.len() implies marker_sep(#[trigger] cols[k].marker)
                >= 0 by {
                assert(!unmapped()(columns[k]));
                lemma_mapping_markers_qualified(columns[k].ty);
            }
            assert forall|j: int| 0 <= j < r.len() implies qualified(#[trigger] r[j].columns) by {
                if j < tables.len() {
                    assert(r[j] == tables[j]);
                }
            }
        },
        StmtV::AlterTable { name, ops } => {
            lemma_alter_fold_qualified(tables, object_ident(name), ops);
        },
        StmtV::Other => {},
    }
}

impl Model {
    /// Renders the model as `schema.rs`.
    pub fn render_schema_rs(&self) -> (r: String)
        requires
            model_qualified(self@),
        ensures
            r@ == schema_rs(self@),
    {
        let ghost tables = self@;
        let n = self.tables.len();
        let mut blocks: Vec<String> = Vec::new();
        let mut lines: Vec<String> = Vec::new();
        let mut names: Vec<String> = Vec::new();
        for i in 0..n
            invariant
                n == self.tables.len(),
                tables == self@,
                model_qualified(tables),
                views(blocks@) == table_blocks(tables.take(i as int)),
                views(lines@) == joinables(tables.take(i as int)),
                views(names@) == table_names(tables.take(i as int)),
        {
            let t = &self.tables[i];
            assert(tables[i as int] == t@);
            assert(qualified(tables[i as int].columns));
            let ghost lines0 = views(lines@);
            let m = t.foreign_keys.len();
            for k in 0..m
                invariant
                    m == t.foreign_keys.len(),
                    tables[i as int] == t@,
                    views(lines@) == lines0 + table_joinables(t@).take(k as int),
            {
                let fk = &t.foreign_keys[k];
                let mut line = String::from_str("diesel::joinable!(");
                line.append(t.name.as_str());
                line.append(" -> ");
                line.append(fk.1.as_str());
                line.append(" (");
                line.append(fk.0.as_str());
                line.append("));");
                assert(t@.foreign_keys[k as int] == (fk.0@, fk.1@));
                let ghost lines_k = views(lines@);
                lines.push(line);
                assert(views(lines@) =~= lines_k.push(line@));
                assert(table_joinables(t@).take(k + 1) =~= table_joinables(t@).take(k as int).push(
                    line@,
                ));
                assert(views(lines@) =~= lines0 + table_joinables(t@).take(k + 1));
            }
            assert(table_joinables(t@).take(m as int) =~= table_joinables(t@));
            let ghost blocks0 = views(blocks@);
            let ghost names0 = views(names@);
            let block = render_table_macro(t);
            blocks.push(block);
            let name = t.name.clone();
            names.push(name);
            assert(views(blocks@) =~= blocks0.push(block@));
            assert(views(names@) =~= names0.push(name@));
            assert(tables.take(i + 1).drop_last() =~= tables.take(i as int));
            assert(views(blocks@) =~= table_blocks(tables.take(i + 1)));
            assert(views(names@) =~= table_names(tables.take(i + 1)));
            assert(views(lines@) =~= joinables(tables.take(i + 1)));
        }
        assert(tables.take(n as int) =~= tables);
        let mut out = String::from_str("// @generated by diesel-dualdb-schema — do not edit by hand.\n\n");
        let body = join_strings(&blocks, "\n\n");
        out.append(body.as_str());
        let ghost head = out@;
        if lines.len() > 0 {
            out.append("\n\n");
            let joined = join_strings(&lines, "\n");
            out.append(joined.as_str());
            out.append("\n\ndiesel::allow_tables_to_appear_in_same_query!(\n    ");
            let all = join_strings(&names, ",\n    ");
            out.append(all.as_str());
            out.append(",\n);");
        }
        out.append("\n");
        assert(out@ =~= schema_rs(tables));
        out
    }
}

} // verus!
