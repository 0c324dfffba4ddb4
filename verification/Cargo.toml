[package]
name = "firm_ql"
version = "0.1.0"
edition = "2021"
publish = false

[dependencies]
sqlparser = "=0.53.0"
rustc_apfloat = "*"
serde = { version = "1", features = ["derive"] }
serde_json = "1"
thiserror = "2"
anyhow = "1"
tokio = { version = "1", features = ["sync", "macros", "rt-multi-thread", "io-std"] }
rmcp = { version = "=0.8.5", features = ["server", "transport-io", "macros"] }
schemars = "1"
toon-format = "=0.7.0"
