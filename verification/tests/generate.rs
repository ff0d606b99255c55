use diesel_dualdb::generate::{generate, Migration};

fn mig(name: &str, up: &str) -> Migration {
    Migration {
        dir_name: name.into(),
        up_sql: up.into(),
        down_sql: None,
    }
}

#[test]
fn fk_composite_pk_index_and_escape_hatch() {
    let migs = vec![
        mig(
            "0001_users",
            "CREATE TABLE users (\
                id UUID PRIMARY KEY NOT NULL, \
                email TEXT NOT NULL);",
        ),
        mig(
            "0002_posts",
            "CREATE TABLE posts (\
                id UUID NOT NULL, \
                author UUID NOT NULL REFERENCES users(id), \
                title TEXT NOT NULL, \
                body JSON, \
                PRIMARY KEY (id, author)); \
             CREATE INDEX posts_author_idx ON posts (author);\n\
             -- dualdb:postgres\n\
             CREATE INDEX posts_body_gin ON posts USING gin (body);\n\
             -- dualdb:end",
        ),
        mig("0003_alter", "ALTER TABLE users ADD COLUMN nickname TEXT;"),
    ];

    let g = generate(&migs).expect("generate");

    // Per-backend native types in DDL.
    let pg = g
        .postgres
        .iter()
        .map(|m| m.up_sql.clone())
        .collect::<String>();
    let sq = g
        .sqlite
        .iter()
        .map(|m| m.up_sql.clone())
        .collect::<String>();
    assert!(pg.contains("UUID"), "{pg}");
    assert!(pg.contains("JSONB"), "{pg}");
    assert!(sq.contains("BLOB"), "{sq}");
    assert!(
        sq.contains("body TEXT")
            || sq.contains("body TEXT,")
            || sq.to_uppercase().contains("BODY TEXT"),
        "{sq}"
    );

    // FK + index passed through to both; the GIN index only to Postgres.
    assert!(pg.contains("REFERENCES users"), "{pg}");
    assert!(pg.contains("posts_author_idx"), "{pg}");
    assert!(pg.contains("USING gin"), "{pg}");
    assert!(sq.contains("posts_author_idx"), "{sq}");
    assert!(
        !sq.contains("gin"),
        "sqlite must NOT get the gin index:\n{sq}"
    );

    // schema.rs: composite PK, the ALTER-added column, joinable!, allow_tables.
    let s = &g.schema_rs;
    assert!(s.contains("posts (id, author)"), "{s}");
    assert!(
        s.contains("nickname -> Nullable<Text>,"),
        "ALTER add missing:\n{s}"
    );
    assert!(s.contains("body -> Nullable<Json>,"), "{s}");
    assert!(
        s.contains("diesel::joinable!(posts -> users (author));"),
        "{s}"
    );
    assert!(s.contains("allow_tables_to_appear_in_same_query!"), "{s}");
}

#[test]
fn unmapped_type_is_an_error() {
    let err = generate(&[mig("x", "CREATE TABLE t (id DATE NOT NULL);")]).unwrap_err();
    assert!(err.contains("no mapping for type"), "{err}");
    assert!(err.contains("migration `x`"), "{err}");
}

#[test]
fn unclosed_escape_block_errors() {
    let err =
        generate(&[mig("x", "-- dualdb:postgres\nCREATE INDEX i ON t (c);")]).unwrap_err();
    assert!(err.contains("unclosed"), "{err}");
}

// ----- further cases -----

#[test]
fn schema_rs_exact_for_one_table() {
    let g = generate(&[mig(
        "0001_items",
        "CREATE TABLE items (id UUID PRIMARY KEY, name TEXT NOT NULL, meta JSONB, n BIGINT);",
    )])
    .expect("generate");
    assert_eq!(
        g.schema_rs,
        "// @generated by diesel-dualdb-schema — do not edit by hand.\n\n\
         diesel::table! {\n\
         \x20   use diesel::sql_types::{BigInt, Nullable, Text};\n\
         \x20   use diesel_dualdb::sql_types::{Json, Uuid};\n\
         \n\
         \x20   items (id) {\n\
         \x20       id -> Uuid,\n\
         \x20       name -> Text,\n\
         \x20       meta -> Nullable<Json>,\n\
         \x20       n -> Nullable<BigInt>,\n\
         \x20   }\n\
         }\n"
    );
}

#[test]
fn first_column_is_the_key_without_a_primary_key() {
    let g = generate(&[mig("m", "CREATE TABLE t (a INTEGER NOT NULL, b TEXT NOT NULL);")])
        .expect("generate");
    assert!(g.schema_rs.contains("    t (a) {\n"), "{}", g.schema_rs);
    // No nullable column, no Nullable import.
    assert!(g.schema_rs.contains("use diesel::sql_types::{Integer, Text};"), "{}", g.schema_rs);
}

#[test]
fn derived_down_drops_created_tables_in_reverse() {
    let g = generate(&[mig(
        "m",
        "CREATE TABLE a (id INTEGER PRIMARY KEY); CREATE TABLE b (id INTEGER PRIMARY KEY);",
    )])
    .expect("generate");
    assert_eq!(g.postgres[0].down_sql, "DROP TABLE IF EXISTS b;\nDROP TABLE IF EXISTS a;");
    assert_eq!(g.sqlite[0].down_sql, g.postgres[0].down_sql);
}

#[test]
fn given_down_is_kept_with_trailing_whitespace_trimmed() {
    let m = Migration {
        dir_name: "m".into(),
        up_sql: "CREATE TABLE a (id INTEGER PRIMARY KEY);".into(),
        down_sql: Some("  DROP TABLE a;\n\n".into()),
    };
    let g = generate(&[m]).expect("generate");
    assert_eq!(g.postgres[0].down_sql, "  DROP TABLE a;");
    assert_eq!(g.sqlite[0].down_sql, "  DROP TABLE a;");
    assert_eq!(g.postgres[0].dir_name, "m");
}

#[test]
fn native_types_per_backend() {
    let g = generate(&[mig(
        "m",
        "CREATE TABLE t (a UUID, b TIMESTAMP, c BYTEA, e BOOLEAN, f REAL);",
    )])
    .expect("generate");
    assert_eq!(
        g.postgres[0].up_sql,
        "CREATE TABLE t (a UUID, b TIMESTAMPTZ, c BYTEA, e BOOLEAN, f REAL);"
    );
    assert_eq!(
        g.sqlite[0].up_sql,
        "CREATE TABLE t (a BLOB, b TEXT, c BLOB, e INTEGER, f REAL);"
    );
}

#[test]
fn numeric_is_not_mapped() {
    for ty in ["NUMERIC(10, 2)", "DECIMAL", "DEC(4)", "DATE", "TIME"] {
        let up = format!("CREATE TABLE t (d {ty});");
        let err = generate(&[mig("m", &up)]).unwrap_err();
        assert!(
            err.starts_with("migration `m`: table `t`, column `d`: no mapping for type "),
            "{err}"
        );
    }
}

#[test]
fn alter_add_column_references_becomes_joinable() {
    let g = generate(&[
        mig("1", "CREATE TABLE p (id INTEGER PRIMARY KEY);"),
        mig("2", "CREATE TABLE c (id INTEGER PRIMARY KEY);"),
        mig("3", "ALTER TABLE c ADD COLUMN p_id INTEGER REFERENCES p (id);"),
    ])
    .expect("generate");
    let s = &g.schema_rs;
    assert!(s.contains("        p_id -> Nullable<Integer>,\n"), "{s}");
    assert!(s.contains("diesel::joinable!(c -> p (p_id));"), "{s}");
}

#[test]
fn alter_drop_column_drops_its_keys() {
    let g = generate(&[
        mig("1", "CREATE TABLE p (id INTEGER PRIMARY KEY);"),
        mig(
            "2",
            "CREATE TABLE c (a INTEGER, b INTEGER REFERENCES p (id), PRIMARY KEY (a, b));",
        ),
        mig("3", "ALTER TABLE c DROP COLUMN b;"),
    ])
    .expect("generate");
    let s = &g.schema_rs;
    assert!(!s.contains("joinable"), "{s}");
    assert!(!s.contains("allow_tables_to_appear_in_same_query"), "{s}");
    assert!(s.contains("    c (a) {\n"), "{s}");
    assert!(!s.contains(" b ->"), "{s}");
}

#[test]
fn tagged_blocks_go_to_their_backend_only() {
    let up = "-- dualdb:sqlite\n  PRAGMA foreign_keys = ON;  \n-- dualdb:end\n\
              CREATE TABLE t (id INTEGER PRIMARY KEY);\n\
              -- dualdb:postgres\nCREATE EXTENSION x;\n-- dualdb:end\n";
    let g = generate(&[mig("m", up)]).expect("generate");
    assert_eq!(
        g.sqlite[0].up_sql,
        "PRAGMA foreign_keys = ON;\n\nCREATE TABLE t (id INTEGER PRIMARY KEY);"
    );
    assert_eq!(
        g.postgres[0].up_sql,
        "CREATE TABLE t (id INTEGER PRIMARY KEY);\n\nCREATE EXTENSION x;"
    );
    // Tagged blocks are not part of the model.
    assert!(!g.schema_rs.contains("foreign_keys"));
}

#[test]
fn alter_on_unknown_table_is_an_error() {
    let err = generate(&[mig("m", "ALTER TABLE nope ADD COLUMN c TEXT;")]).unwrap_err();
    assert_eq!(err, "migration `m`: ALTER on unknown table `nope`");
}

#[test]
fn alter_drop_column_leaves_the_model() {
    let g = generate(&[
        mig("1", "CREATE TABLE t (id INTEGER PRIMARY KEY, old TEXT);"),
        mig("2", "ALTER TABLE t DROP COLUMN old;"),
    ])
    .expect("generate");
    assert!(!g.schema_rs.contains("old"), "{}", g.schema_rs);
}

#[test]
fn sql_parse_errors_are_prefixed() {
    let err = generate(&[mig("bad", "CREATE TABLE (;")]).unwrap_err();
    assert!(err.starts_with("migration `bad`: SQL parse error: "), "{err}");
}

#[test]
fn directive_errors() {
    let err = generate(&[mig("m", "-- dualdb:mysql\n")]).unwrap_err();
    assert_eq!(err, "migration `m`: unknown directive `-- dualdb:mysql`");
    let err = generate(&[mig("m", "-- dualdb:end\n")]).unwrap_err();
    assert_eq!(err, "migration `m`: `-- dualdb:end` without an open block");
    let err = generate(&[mig("m", "-- dualdb:postgres\n-- dualdb:sqlite\n")]).unwrap_err();
    assert_eq!(err, "migration `m`: nested `-- dualdb:` block");
}

#[test]
fn unmapped_type_message_names_the_column() {
    let err = generate(&[mig("x", "CREATE TABLE t (id DATE NOT NULL);")]).unwrap_err();
    assert_eq!(err, "migration `x`: table `t`, column `id`: no mapping for type Date");
}

#[test]
fn empty_input_gives_only_the_header() {
    let g = generate(&[]).expect("generate");
    assert!(g.postgres.is_empty() && g.sqlite.is_empty());
    assert_eq!(
        g.schema_rs,
        "// @generated by diesel-dualdb-schema — do not edit by hand.\n\n\n"
    );
}

#[test]
fn tagged_blocks_stay_out_of_the_schema() {
    let with_block = "CREATE TABLE a (id INTEGER PRIMARY KEY);\n\
                      -- dualdb:postgres\nCREATE TABLE pg_only (id INTEGER PRIMARY KEY);\n-- dualdb:end\n";
    let g = generate(&[mig("m", with_block)]).expect("generate");
    let plain = generate(&[mig("m", "CREATE TABLE a (id INTEGER PRIMARY KEY);")]).expect("generate");
    assert_eq!(g.schema_rs, plain.schema_rs);
    assert!(!g.schema_rs.contains("pg_only"));
    // The derived down.sql only drops what the shared DDL creates.
    assert_eq!(g.postgres[0].down_sql, "DROP TABLE IF EXISTS a;");
}

#[test]
fn both_trees_list_every_migration_alike() {
    let g = generate(&[
        mig("0001_a", "CREATE TABLE a (id INTEGER PRIMARY KEY);"),
        mig("0002_b", "CREATE TABLE b (id UUID PRIMARY KEY);"),
    ])
    .expect("generate");
    assert_eq!(g.postgres.len(), 2);
    assert_eq!(g.sqlite.len(), 2);
    for i in 0..2 {
        assert_eq!(g.postgres[i].dir_name, g.sqlite[i].dir_name);
        assert_eq!(g.postgres[i].down_sql, g.sqlite[i].down_sql);
    }
    assert_eq!(g.postgres[1].dir_name, "0002_b");
    assert_eq!(g.postgres[1].up_sql, "CREATE TABLE b (id UUID PRIMARY KEY);");
    assert_eq!(g.sqlite[1].up_sql, "CREATE TABLE b (id BLOB PRIMARY KEY);");
}

#[test]
fn foreign_keys_from_constraints_and_alter() {
    let g = generate(&[
        mig("1", "CREATE TABLE p (id INTEGER PRIMARY KEY);"),
        mig(
            "2",
            "CREATE TABLE c (id INTEGER PRIMARY KEY, p_id INTEGER, FOREIGN KEY (p_id) REFERENCES p (id));",
        ),
        mig("3", "ALTER TABLE c ADD COLUMN q INTEGER;"),
        mig("4", "ALTER TABLE c ADD CONSTRAINT fk_q FOREIGN KEY (q) REFERENCES p (id);"),
    ])
    .expect("generate");
    let s = &g.schema_rs;
    assert!(s.contains("diesel::joinable!(c -> p (p_id));\ndiesel::joinable!(c -> p (q));"), "{s}");
    assert!(
        s.ends_with("diesel::allow_tables_to_appear_in_same_query!(\n    p,\n    c,\n);\n"),
        "{s}"
    );
}
