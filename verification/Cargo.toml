[package]
name = "wip"
version = "0.1.0"
edition = "2021"
publish = false

[dependencies]
semver = { version = "1", features = ["serde"] }
toml = "0.8"
serde = { version = "1", features = ["derive"] }
serde_derive = "1"
walkdir = "2"
pathdiff = "0.2"
cargo_toml = "*"
git2 = { version = "*", default-features = false }
rand = "0.8"
nix = { version = "*", features = ["process", "signal"] }
signal-hook = "0.3"
itertools = "*"
boolinator = "*"
