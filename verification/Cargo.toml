[package]
name = "io-thread-controller"
version = "0.1.0"
edition = "2021"
publish = false

[dependencies]
async-trait = "0.1"
clap = { version = "4", features = ["derive", "env"] }
futures-util = "0.3"
inotify = "*"
linkme = "0.3"
procfs = "*"
regex = "1"
rustix = { version = "1", features = ["param"] }
serde = { version = "1", features = ["derive"] }
serde_json = { version = "1", features = ["raw_value"] }
thiserror = "2"
tokio = { version = "1", features = ["full"] }
tracing = "0.1"
tracing-subscriber = { version = "0.3", features = ["env-filter"] }
uuid = "1"
virt = { version = "*", features = ["qemu"] }
zbus = "5"
