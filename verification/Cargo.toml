[package]
name = "sample_bridge"
version = "0.1.0"
edition = "2021"
publish = false

[dependencies]
futures = "=0.3.34"
futuresdr = { version = "=0.0.36", default-features = false }
futures-util = "=0.3.34"
log = "=0.4.34"
plotters = { version = "=0.3.7", default-features = false, features = ["bitmap_backend", "area_series"] }
rand = "=0.8.8"
tokio = { version = "=1.54.1", features = ["rt-multi-thread", "time"] }
tokio-tungstenite-wasm = "=0.9.0"
