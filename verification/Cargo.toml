[package]
name = "tlscope"
version = "0.1.0"
edition = "2021"
publish = false

[dependencies]
anyhow = "=1.0.104"
base64 = "=0.22.1"
bytes = "=1.12.1"
clap = { version = "=4.6.7", features = ["derive"] }
crossterm = "=0.28.1"
dirs = "=5.0.1"
flate2 = "=1.1.10"
h2 = "=0.4.20"
hex = "=0.4.3"
http = "=1.5.0"
httparse = "=1.10.1"
libc = "=0.2.191"
ratatui = "=0.29.0"
rcgen = { version = "=0.13.2", default-features = false, features = ["ring", "pem", "x509-parser"] }
rustls = { version = "=0.23.46", default-features = false, features = ["ring", "std", "tls12", "logging"] }
rustls-pemfile = "=2.2.0"
serde = { version = "=1.0.229", features = ["derive"] }
serde_json = "=1.0.154"
sha2 = "=0.10.9"
time = "=0.3.55"
tokio = { version = "=1.54.1", features = ["full"] }
tokio-rustls = { version = "=0.26.6", default-features = false, features = ["ring", "logging", "tls12"] }
tracing = "=0.1.44"
tracing-subscriber = { version = "=0.3.23", features = ["env-filter", "fmt"] }
url = "=2.5.8"
webpki-roots = "=0.26.11"
x509-parser = "=0.16.0"
