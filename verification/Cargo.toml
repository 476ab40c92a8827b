[package]
name = "cargo_nix_plugin"
version = "0.1.0"
edition = "2021"
publish = false

[dependencies]
base64 = "0.22"
cargo_metadata = "0.18"
cargo-platform = "0.1"
getrandom = "0.3"
http = "1"
netrc = "*"
nix-bindings-expr-sys = "*"
nix-bindings-store-sys = "*"
nix-bindings-util-sys = "*"
semver = "1"
serde = { version = "1", features = ["derive"] }
serde_json = "1"
tame-index = { version = "*", features = ["sparse"] }
toml = "0.8"
ureq = "3"
