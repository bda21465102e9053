[package]
name = "hydrogen_src"
version = "0.1.0"
edition = "2021"
publish = false

[dependencies]
ardftsrc = { version = "=0.2.0", features = ["bessel", "high_precision"] }
clap = { version = "=4.6.7", features = ["derive"] }
reqwest = { version = "=0.12.28", default-features = false, features = ["blocking", "rustls-tls"] }
rubato = "=5.0.1"
serde = { version = "=1.0.229", features = ["derive"] }
serde_json = "=1.0.154"
thiserror = "=2.0.21"
wavers = "=1.5.1"
zip = { version = "=9.2.2", default-features = false, features = ["deflate"] }
