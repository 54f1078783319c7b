[package]
name = "hosthog"
version = "0.1.0"
edition = "2021"
publish = false

[dependencies]
duration-str = "=0.21.0"
dateparser = "=0.3.1"
chrono = { version = "=0.4.45", features = ["serde"] }
clap = { version = "=4.6.7", features = ["derive"] }
libc = "=0.2.190"
nix = { version = "=0.31.3", features = ["mount"] }
once_cell = "=1.21.4"
serde = { version = "=1.0.229", features = ["derive"] }
serde_json = "=1.0.151"
serde_yaml = "=0.9.34"
tokio = { version = "=1.53.2", features = ["rt", "rt-multi-thread"] }
zbus_systemd = { version = "=0.26200.0", features = ["systemd1", "zbus-async-tokio"] }
netstat = "=0.6.2"
