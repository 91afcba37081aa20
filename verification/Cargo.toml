[package]
name = "fullstack_gateway"
version = "0.1.0"
edition = "2021"
publish = false

[dependencies]
http = "1"
axum = "0.8"
bytes = "1"
dioxus-core = "0.7"
dioxus-fullstack-core = "0.7"
inventory = "0.3"
tokio-util = { version = "0.7", features = ["rt"] }
tower = { version = "0.5", features = ["util"] }
tower-http = { version = "0.6", features = ["fs"] }
tracing = "0.1"
