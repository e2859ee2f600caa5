[package]
name = "schemalint"
version = "0.1.0"
edition = "2021"
publish = false

[dependencies]
clap = { version = "=4.6.7", features = ["derive"] }
ctrlc = "=3.5.2"
indexmap = "=2.14.2"
percent-encoding = "=2.3.2"
rustc-hash = "=2.1.3"
serde = { version = "=1.0.229", features = ["derive"] }
serde_json = { version = "=1.0.154", features = ["preserve_order"] }
thiserror = "=2.0.21"
toml = "=0.8.23"
