[package]
name = "jc"
version = "0.1.0"
edition = "2021"
publish = false

[dependencies]
anyhow = "=1.0.104"
chrono = "=0.4.45"
clap = { version = "=4.6.7", features = ["derive", "env"] }
colored = "=3.1.1"
console = "=0.16.6"
dirs = "=6.0.0"
futures = "=0.3.34"
gethostname = "=1.1.0"
globset = "=0.4.21"
indicatif = "=0.18.6"
jj-lib = "=0.43.0"
# Used by jj-lib only: held back, since later versions need a newer compiler.
kstring = "=2.0.2"
serde = { version = "=1.0.229", features = ["derive"] }
serde_json = "=1.0.154"
sha2 = "=0.10.9"
similar = "=2.7.0"
tokio = { version = "=1.54.1", features = ["full"] }
toml = "=0.9.12"
tracing = "=0.1.44"
tracing-subscriber = { version = "=0.3.23", features = ["env-filter"] }
unicode-width = "=0.2.3"

[dev-dependencies]
regex = "=1.13.1"
