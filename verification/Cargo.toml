[package]
name = "node_taint_preserver"
version = "0.1.0"
edition = "2021"
publish = false

[dependencies]
sha2 = "=0.11.0"
hex = "=0.4.3"
kube = { version = "=3.1.0", features = ["runtime"] }
k8s-openapi = { version = "=0.27.1", features = ["latest"] }
tokio = { version = "*", features = ["macros", "rt-multi-thread"] }
futures = "*"
anyhow = "*"
tracing = "*"
tracing-subscriber = "*"
prometheus = "*"
lazy_static = "*"
serde_json = "*"
thiserror = "*"
