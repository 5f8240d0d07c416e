[package]
name = "testkit"
version = "0.1.0"
edition = "2021"
publish = false

[dependencies]
cargo-manifest = "*"
googletest = "*"
http = "*"
mockall = "*"
proc-macro2 = "*"
quote = "*"
serde_json = "*"
syn = { version = "2", features = ["full"] }
toml = "*"
wiremock = "*"
