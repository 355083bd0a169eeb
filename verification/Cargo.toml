[package]
name = "artifact_cache"
version = "0.1.0"
edition = "2021"
publish = false

[dependencies]
anstream = "=1.0.0"
anyhow = "=1.0.104"
blake3 = "=1.8.7"
cargo-platform = "=0.3.3"
cargo-util = "=0.2.27"
cargo-util-schemas = "=0.12.0"
filetime = "=0.2.29"
home = "=0.5.12"
libc = "=0.2.191"
linker-utils = "=0.10.0"
object = "=0.40.0"
pathdiff = "=0.2.3"
portable-atomic = "=1.15.0"
regex = "=1.13.1"
rustfix = "=0.9.8"
same-file = "=1.0.6"
semver = "=1.0.28"
serde = { version = "=1.0.229", features = ["derive"] }
serde_json = { version = "=1.0.154", features = ["raw_value"] }
tempfile = "=3.27.0"
toml = "=1.1.8"
