[package]
name = "sprd"
version = "0.1.0"
edition = "2021"
publish = false

[dependencies]
anyhow = "=1.0.104"
atty = "=0.2.14"
clap = { version = "=3.2.25", features = ["derive"] }
# indicatif asks for console without its default features, and console 0.16
# keeps the terminal behind `std`: naming it here switches that feature on.
console = { version = "=0.16.6", default-features = false, features = ["std"] }
dirs = "=4.0.0"
flate2 = "=1.1.10"
hyper = { version = "=0.14.32", features = ["client", "http1", "http2", "stream", "runtime", "tcp"] }
hyper-rustls = "=0.24.2"
indicatif = "=0.16.2"
md-5 = "=0.10.6"
reqwest = { version = "=0.11.27", default-features = false, features = ["json", "rustls-tls"] }
serde = { version = "1", features = ["derive"] }
serde_json = "1"
thiserror = "=1.0.69"
tokio = { version = "1", features = ["macros", "rt-multi-thread", "fs", "io-util"] }
