use diesel_dualdb::pool::{detect_backend, Backend, DualConnectionManager, Error};

#[test]
fn detects_postgres() {
    assert_eq!(detect_backend("postgres://u@h/db"), Some(Backend::Postgres));
    assert_eq!(
        detect_backend("postgresql://u@h:5432/db"),
        Some(Backend::Postgres)
    );
}

#[test]
fn detects_sqlite() {
    for url in [
        ":memory:",
        "file:app.db",
        "file::memory:?cache=shared",
        "sqlite://app.db",
        "app.db",
        "/var/lib/app.sqlite",
        "./data/x.db",
    ] {
        assert_eq!(detect_backend(url), Some(Backend::Sqlite), "url: {url}");
    }
}

#[test]
fn rejects_unknown_scheme() {
    assert_eq!(detect_backend("mysql://h/db"), None);
    assert_eq!(detect_backend("redis://h"), None);
    assert!(DualConnectionManager::new("mysql://h/db").is_err());
}

#[test]
fn detection_trims_and_ignores_ascii_case() {
    assert_eq!(detect_backend("  POSTGRES://h/db \n"), Some(Backend::Postgres));
    assert_eq!(detect_backend("SQLite://app.db"), Some(Backend::Sqlite));
    assert_eq!(detect_backend(" :MEMORY: "), Some(Backend::Sqlite));
    assert_eq!(detect_backend("MySQL://h"), None);
    assert_eq!(detect_backend(""), Some(Backend::Sqlite));
}

#[test]
fn manager_keeps_url_and_backend() {
    let m = DualConnectionManager::new("postgres://h/db").expect("manager");
    assert_eq!(m.url(), "postgres://h/db");
    assert_eq!(m.backend(), Backend::Postgres);
    match DualConnectionManager::new("mysql://h/db") {
        Err(Error::UnknownUrl(u)) => assert_eq!(u, "mysql://h/db"),
        other => panic!("unexpected: {other:?}"),
    }
}

#[test]
fn sqlite_path_strips_the_scheme() {
    let m = DualConnectionManager::new("sqlite://./app.db").expect("manager");
    assert_eq!(m.sqlite_path(), "./app.db");
    let m = DualConnectionManager::new("file:app.db").expect("manager");
    assert_eq!(m.sqlite_path(), "file:app.db");
}
