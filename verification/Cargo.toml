[package]
name = "crates_mirror"
version = "0.1.0"
edition = "2021"
publish = false

[dependencies]
anyhow = "=1.0.104"
chrono = "=0.4.45"
either = "=1.19.0"
fmutex = "=0.3.0"
home = "=0.5.12"
libc = "=0.2.191"
log = "=0.4.34"
powerpack = { version = "=0.8.0", features = ["detach", "env"] }
semver = "=1.0.28"
serde_json = "=1.0.154"
