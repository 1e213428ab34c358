[package]
name = "webhook_exposure"
version = "0.1.0"
edition = "2021"
publish = false

[dependencies]
k8s-openapi = { version = "*", features = ["latest"] }
kubewarden-policy-sdk = { version = "*", features = ["cluster-context"] }
serde = { version = "*", features = ["derive"] }
serde_json = "*"
