[package]
name = "ordinary"
version = "0.1.0"
edition = "2021"
publish = false

[dependencies]
anyhow = "1"
async-io = "2"
clap = { version = "4", features = ["derive"] }
env_logger = "0.11"
futures-lite = "2"
libc = "0.2"
log = "0.4"
png = "*"
rustix = { version = "1", features = ["event"] }
serde = { version = "1", features = ["derive"] }
serde_json = "1"
shell-words = "1"
smol = "2"
wayland-backend = "0.3"
wayland-client = "0.31"
wayland-scanner = "0.31"
x11rb = { version = "0.13", features = ["composite", "damage", "xtest"] }
zbus = "5"
