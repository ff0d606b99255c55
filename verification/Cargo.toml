[package]
name = "diesel_dualdb"
version = "0.1.0"
edition = "2021"
publish = false

[dependencies]
sqlparser = "0.53"
diesel = { version = "2.3", features = ["postgres", "sqlite", "r2d2", "returning_clauses_for_sqlite_3_35", "uuid", "chrono", "serde_json", "numeric"] }
chrono = "0.4"
uuid = "1"
bigdecimal = "0.4"
serde = { version = "1", features = ["derive"] }
serde_json = "1"
syn = { version = "2", features = ["full"] }
quote = "1"
proc-macro2 = "1"
