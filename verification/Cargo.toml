[package]
name = "creator"
version = "0.1.0"
edition = "2021"
publish = false

[dependencies]
base64 = "=0.22.1"
blake3 = "=1.8.7"
clap = { version = "=4.6.7", features = ["derive"] }
dialoguer = "=0.11.0"
grass = "=0.13.4"
lightningcss = { version = "=1.0.0-alpha.72", default-features = false }
minijinja = "=2.24.0"
notify = "=8.2.1"
opener = "=0.9.0"
owo-colors = "=4.4.0"
oxc = { version = "=0.143.0", features = ["semantic", "transformer", "codegen", "ast_visit"] }
rayon = "=1.12.0"
regex-syntax = "=0.8.11"
reqwest = { version = "=0.12.28", default-features = false, features = ["blocking", "rustls-tls"] }
semver = { version = "=1.0.28", features = ["serde"] }
serde = { version = "=1.0.229", features = ["derive"] }
serde_json = "=1.0.154"
thiserror = "=2.0.21"
tracing = "=0.1.44"
tracing-subscriber = { version = "=0.3.23", features = ["env-filter"] }
walkdir = "=2.5.0"
zip = { version = "=9.2.2", default-features = false, features = ["deflate"] }

[dev-dependencies]
regex = "1"
