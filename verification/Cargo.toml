[package]
name = "rustdoc-markdown"
version = "0.1.0"
edition = "2021"
publish = false

[dependencies]
semver = "1"
pulldown-cmark = "*"
pulldown-cmark-to-cmark = "*"
rustdoc-types = "0.39"
rustdoc-json = "*"
serde = { version = "1", features = ["derive"] }
serde_json = "1"
anyhow = "1"
clap = { version = "4", features = ["derive"] }
tokio = { version = "1", features = ["macros", "rt-multi-thread"] }
reqwest = { version = "0.12", default-features = false, features = ["json", "rustls-tls"] }
flate2 = "1"
tar = "0.4"
cargo-manifest = "*"
git2 = { version = "*", default-features = false }
glob = "0.3"
rustup-toolchain = "*"
tracing = "0.1"
tracing-subscriber = { version = "0.3", features = ["env-filter"] }
