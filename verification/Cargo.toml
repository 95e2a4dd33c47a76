[package]
name = "chapeau"
version = "0.1.0"
edition = "2021"
publish = false

[dependencies]
chrono = "0.4"
uuid = { version = "1", features = ["v4"] }
petgraph = "*"
serde = { version = "1", features = ["derive"] }
serde_json = "1"
thiserror = "*"
anyhow = "1"
clap = { version = "4", features = ["derive"] }
rusqlite = { version = "*", features = ["bundled"] }
tokio = { version = "1", features = ["rt", "rt-multi-thread"] }
zbus = "*"
zbus_systemd = { version = "*", features = ["systemd1"] }
