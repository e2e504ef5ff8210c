[package]
name = "wasmedge_hyper_demo"
version = "0.1.0"
edition = "2021"
publish = false

[dependencies]
hyper = { version = "1", features = ["client", "server", "http1"] }
http-body-util = "0.1"
tokio = { version = "1.36", features = ["rt", "macros", "net", "time", "io-util"] }
pin-project = "1"
pretty_env_logger = "0.5"
anyhow = "1"
bytes = "1"
futures-util = "0.3"
axum = "0.6"
warp = "0.3"
image = "0.24"
wasi-nn = "0.6"
wasmedge_wasi_socket = "0.5"
rustls = "0.22"
tokio-rustls = "0.25"
webpki-roots = "0.26"
