[package]
name = "linguagraph"
version = "0.1.0"
edition = "2021"
publish = false

[dependencies]
uuid = { version = "=1.29.0", features = ["v4", "v5"] }
serde = { version = "=1.0.229", features = ["derive"] }
serde_json = "=1.0.154"
async-trait = "=0.1.92"
thiserror = "=1.0.69"
anyhow = "=1.0.104"
tokio = { version = "=1.54.1", default-features = false, features = ["fs", "rt", "sync", "macros"] }
reqwest = { version = "=0.12.28", default-features = false, features = ["json"] }
sqlx = { version = "=0.8.6", default-features = false, features = ["postgres", "runtime-tokio", "json"] }
once_cell = "=1.21.4"
encoding_rs = "=0.8.44"
tracing = "=0.1.44"
llama-cpp-2 = "*"
