[package]
name = "pgx_entity_graph"
version = "0.1.0"
edition = "2021"
publish = false

[dependencies]
syn = { version = "=1.0.109", features = ["full", "extra-traits"] }
proc-macro2 = "=1.0.107"
quote = "=1.0.47"
serde = { version = "=1.0.229", features = ["derive"] }
eyre = "=0.6.14"
tracing = "=0.1.44"
tracing-error = "=0.2.1"
