use diesel_dualdb::macros::{backend_test_name, parse_backends, plan_enum, VariantInput};

fn names(v: &[&str]) -> Vec<String> {
    v.iter().map(|s| s.to_string()).collect()
}

fn opts(v: &[(&str, &str)]) -> Vec<(String, String)> {
    v.iter().map(|(n, x)| (n.to_string(), x.to_string())).collect()
}

fn unit(ident: &str, rename: Option<&str>) -> VariantInput {
    VariantInput {
        ident: ident.into(),
        is_unit: true,
        options: match rename {
            Some(r) => opts(&[("rename", r)]),
            None => vec![],
        },
    }
}

#[test]
fn backend_selection() {
    assert_eq!(parse_backends(&names(&[])), Ok((true, true)));
    assert_eq!(parse_backends(&names(&["pg"])), Ok((true, false)));
    assert_eq!(parse_backends(&names(&["sqlite"])), Ok((false, true)));
    assert_eq!(parse_backends(&names(&["sqlite", "pg"])), Ok((true, true)));
    assert_eq!(
        parse_backends(&names(&["pg", "mysql"])),
        Err("expected `pg` and/or `sqlite`".to_string())
    );
}

#[test]
fn generated_test_names() {
    assert_eq!(backend_test_name("round_trips", true), "round_trips_sqlite");
    assert_eq!(backend_test_name("round_trips", false), "round_trips_pg");
}

#[test]
fn enum_plan_labels_and_lookup() {
    let vs = vec![unit("Happy", None), unit("Sad", None), unit("Neutral", Some("meh"))];
    let p = plan_enum(true, "Mood", &opts(&[("pg_type", "mood")]), &vs).expect("plan");
    assert_eq!(p.pg_type, "mood");
    assert_eq!(p.marker, "MoodSqlType");
    assert_eq!(p.variants, names(&["Happy", "Sad", "Neutral"]));
    assert_eq!(p.labels, names(&["Happy", "Sad", "meh"]));
    for i in 0..3 {
        assert_eq!(p.variant_of(p.label(i)), Ok(i));
    }
    assert_eq!(
        p.variant_of("Neutral"),
        Err("unrecognized `mood` enum label: \"Neutral\"".to_string())
    );
}

#[test]
fn enum_plan_default_pg_type_is_lowercase_name() {
    let p = plan_enum(true, "TrafficLight", &vec![], &vec![unit("Red", None)]).expect("plan");
    assert_eq!(p.pg_type, "trafficlight");
}

#[test]
fn enum_plan_errors() {
    assert_eq!(
        plan_enum(false, "S", &vec![], &vec![]).err(),
        Some("DualEnum can only be derived for enums".to_string())
    );
    let tuple = VariantInput {
        ident: "Big".into(),
        is_unit: false,
        options: vec![],
    };
    assert_eq!(
        plan_enum(true, "E", &vec![], &vec![unit("A", None), tuple]).err(),
        Some("DualEnum variants must be unit (fieldless)".to_string())
    );
    assert_eq!(
        plan_enum(true, "E", &vec![], &vec![]).err(),
        Some("DualEnum needs at least one variant".to_string())
    );
}

#[test]
fn duplicate_labels_read_back_as_the_first() {
    let vs = vec![unit("A", Some("x")), unit("B", Some("x"))];
    let p = plan_enum(true, "E", &vec![], &vs).expect("plan");
    assert_eq!(p.variant_of("x"), Ok(0));
}

#[test]
fn enum_plan_unknown_options_are_refused() {
    assert_eq!(
        plan_enum(true, "E", &opts(&[("pg_typ", "x")]), &vec![unit("A", None)]).err(),
        Some("unknown `dualdb` option (expected `pg_type`)".to_string())
    );
    let labelled = VariantInput {
        ident: "A".into(),
        is_unit: true,
        options: opts(&[("label", "x")]),
    };
    assert_eq!(
        plan_enum(true, "E", &vec![], &vec![labelled]).err(),
        Some("unknown `dualdb` option (expected `rename`)".to_string())
    );
    // Variants are checked in order: a field-carrying variant before a bad option.
    let tuple = VariantInput {
        ident: "T".into(),
        is_unit: false,
        options: opts(&[("label", "x")]),
    };
    assert_eq!(
        plan_enum(true, "E", &vec![], &vec![tuple]).err(),
        Some("DualEnum variants must be unit (fieldless)".to_string())
    );
}

#[test]
fn enum_plan_last_option_wins() {
    let v = VariantInput {
        ident: "A".into(),
        is_unit: true,
        options: opts(&[("rename", "x"), ("rename", "y")]),
    };
    let p = plan_enum(true, "E", &opts(&[("pg_type", "a"), ("pg_type", "b")]), &vec![v])
        .expect("plan");
    assert_eq!(p.pg_type, "b");
    assert_eq!(p.labels, names(&["y"]));
}
