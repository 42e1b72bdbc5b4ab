[package]
name = "iznik-kit"
version = "0.1.0"
edition = "2021"
publish = false

[dependencies]
sha2 = "0.10"
toml = "0.8"
serde = { version = "1", features = ["derive"] }
serde_json = "1"
syn = { version = "2", features = ["full", "visit", "extra-traits"] }
proc-macro2 = { version = "1", features = ["span-locations"] }
nix = { version = "0.29", features = ["signal", "process"] }
portable-pty = "0.9"
cbindgen = { version = "0.27", default-features = false }
