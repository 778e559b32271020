[package]
name = "sockudo_ws"
version = "1.0.0"
edition = "2021"
publish = false

[dependencies]
axum = "=0.8.9"
base64 = "=0.22.1"
bytes = "=1.12.1"
compio = { version = "=0.19.2", features = ["bytes", "h3", "io", "io-compat", "macros", "net", "quic", "time"] }
fastrand = "=2.5.0"
flate2 = { version = "=1.1.10", default-features = false, features = ["zlib-rs"] }
futures-channel = { version = "=0.3.34", features = ["sink"] }
futures-core = "=0.3.34"
futures-sink = "=0.3.34"
futures-util = { version = "=0.3.34", features = ["sink"] }
h2 = "=0.4.20"
h3 = "=0.0.8"
h3-quinn = "=0.0.10"
http = "=1.5.0"
httparse = "=1.10.1"
hyper = { version = "=1.12.0", features = ["server", "http1"] }
hyper-util = { version = "=0.1.21", features = ["tokio"] }
parking_lot = "=0.12.5"
pin-project-lite = "=0.2.17"
quinn = "=0.11.12"
rustls = { version = "=0.23.46", default-features = false, features = ["ring", "std", "tls12"] }
sha1 = "=0.10.7"
simdutf8 = "=0.1.5"
tokio = { version = "=1.54.1", features = ["full"] }
tokio-uring = "=0.5.0"
tokio-util = { version = "=0.7.20", features = ["compat"] }
