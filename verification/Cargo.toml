[package]
name = "dianemo_rust"
version = "0.1.0"
edition = "2021"
publish = false

[dependencies]
bytes = "=1.12.1"
tokio = { version = "=1.54.1", features = ["full"] }
anyhow = "=1.0.104"
serde = { version = "=1.0.229", features = ["derive"] }
thiserror = "=2.0.21"
cuid2 = "=0.1.6"
hostname = "=0.4.2"
rfd = { version = "=0.17.2", default-features = false, features = ["xdg-portal"] }
socket2 = { version = "=0.6.5", features = ["all"] }
