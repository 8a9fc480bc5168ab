[package]
name = "dbt_lint_yaml"
version = "0.1.0"
edition = "2021"
publish = false

[dependencies]
petgraph = "*"
strsim = "*"
toml = "*"
serde = { version = "*", features = ["derive"] }
serde_json = "*"
serde_with = "*"
strum = { version = "*", features = ["derive"] }
struct-field-names-as-array = "*"
thiserror = "*"
clap = "*"
tokio = { version = "*", features = ["rt", "macros"] }
minijinja = "*"
parquet = { version = "*", default-features = false }
