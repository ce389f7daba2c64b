[package]
name = "meow"
version = "0.1.0"
edition = "2021"
publish = false

[dependencies]
colored = "2"
flate2 = "1"
futures = "0.3"
mtree = "*"
nix = { version = "0.29", features = ["user"] }
reqwest = { version = "0.12", features = ["json"] }
serde = "1"
serde_derive = "1"
serde_json = "1"
tar = "0.4"
tokio = { version = "1", features = ["macros", "rt-multi-thread"] }
toml = "0.8"
zstd = "0.13"
