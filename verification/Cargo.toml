[package]
name = "parc"
version = "0.1.0"
edition = "2021"
publish = false

[dependencies]
chrono = "=0.4.45"
comrak = "=0.59.0"
ulid = "=1.2.1"
serde = { version = "=1.0.229", features = ["derive"] }
serde_json = "=1.0.154"
serde_yaml = "=0.9.34"
serde_yaml_ng = "=0.10.0"
toml = "=1.1.8"
rusqlite = { version = "=0.41.1", features = ["bundled"] }
similar = "=2.7.0"
nucleo = "=0.5.0"
libc = "=0.2.191"
regex = "=1.13.1"
clap = { version = "=4.6.7", features = ["derive"] }
wasmtime = { version = "=45.0.3", default-features = false, features = ["cranelift", "runtime", "std"] }
