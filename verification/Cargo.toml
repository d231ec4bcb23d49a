[package]
name = "priceshark"
version = "0.1.0"
edition = "2021"
publish = false

[dependencies]
anyhow = "=1.0.104"
clap = { version = "=4.6.7", features = ["derive"] }
counter = "=0.7.1"
fantoccini = { version = "=0.21.5", default-features = false, features = ["rustls-tls"] }
futures-util = "=0.3.34"
geo = { version = "=0.28.0", features = ["use-serde"] }
httpdate = "=1.0.3"
indexmap = { version = "=2.14.2", features = ["serde"] }
indicatif = "=0.17.11"
inquire = "=0.7.5"
itertools = "=0.15.0"
postcard = { version = "=1.1.3", features = ["alloc"] }
rayon = "=1.12.0"
reqwest = { version = "=0.12.28", default-features = false, features = ["rustls-tls"] }
serde = { version = "=1.0.229", features = ["derive"] }
serde_json = "=1.0.154"
serde_repr = "=0.1.21"
serde_with = { version = "=3.24.0", features = ["chrono"] }
serde_yaml = "0.9"
sha256 = { version = "=1.6.0", default-features = false }
tokio = { version = "=1.54.1", features = ["rt-multi-thread", "macros", "time"] }
typed_floats = { version = "=1.0.7", features = ["serde"] }
ureq = { version = "=2.12.1", features = ["json"] }
url = "=2.5.8"
zstd = "=0.13.3"
