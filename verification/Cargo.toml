[package]
name = "sol_rpc_router"
version = "0.1.0"
edition = "2021"
publish = false

[dependencies]
rand = "*"
arc-swap = "*"
axum = { version = "*", features = ["ws"] }
futures-util = "*"
http-body-util = "*"
hyper = "*"
hyper-util = { version = "*", features = ["client", "client-legacy", "http1", "tokio"] }
metrics = "*"
moka = { version = "*", features = ["future"] }
redis = { version = "*", features = ["tokio-comp", "script"] }
serde = { version = "*", features = ["derive"] }
serde_json = "*"
tokio = { version = "*", features = ["rt-multi-thread", "macros", "signal", "time", "net"] }
tokio-tungstenite = "*"
tracing = "*"
tracing-subscriber = "*"
