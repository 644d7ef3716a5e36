[package]
name = "netkit"
version = "0.1.0"
edition = "2021"
publish = false

[dependencies]
object = "=0.40.0"
pnet = "=0.35.0"
tokio = { version = "=1.54.1", features = ["full"] }
clap = { version = "=4.6.7", features = ["derive"] }
csv = "=1.4.0"
serde = { version = "=1.0.229", features = ["derive"] }
serde_json = "=1.0.154"
uuid = { version = "=1.29.0", features = ["v4"] }
bytes = "=1.12.1"
anyhow = "=1.0.104"
log = "=0.4.35"
log4rs = "=1.4.0"
env_logger = "=0.11.11"
num_cpus = "=1.17.0"
libc = "=0.2.191"
libp2p = { version = "*", default-features = false }
