[package]
name = "zeroboot"
version = "0.1.0"
edition = "2021"
publish = false

[dependencies]
anyhow = "1"
axum = "0.8"
kvm-bindings = "*"
kvm-ioctls = "*"
libc = "0.2"
serde = { version = "1", features = ["derive"] }
serde_json = "1"
tokio = { version = "1", features = ["rt"] }
uuid = { version = "1", features = ["v7"] }
