[package]
name = "vortex"
version = "0.1.0"
edition = "2021"
publish = false

[dependencies]
arboard = "=3.7.0"
futures = "=0.3.34"
hex = "=0.4.3"
humantime = "=2.4.0"
image = { version = "=0.25.10", default-features = false, features = ["png"] }
serde = { version = "=1.0.229", features = ["derive"] }
serde_json = "=1.0.154"
sha2 = "=0.10.9"
tokio = { version = "=1.54.1", features = ["full"] }
tracing = "=0.1.44"
tracing-subscriber = { version = "=0.3.23", features = ["env-filter"] }
uuid = "=1.29.0"
wl-clipboard-rs = "=0.9.5"
x11rb = "=0.13.2"
zbus = { version = "=5.19.0", features = ["tokio"] }
