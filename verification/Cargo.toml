[package]
name = "powerfs_fuse"
version = "0.1.0"
edition = "2021"
publish = false

[dependencies]
async-trait = "0.1"
bytes = "1"
chrono = "0.4"
crc32fast = "1"
dashmap = "*"
fuse-backend-rs = "*"
libc = "0.2"
log = "0.4"
lru = "*"
num_cpus = "1"
serde_json = "1"
tokio = { version = "1", features = ["full"] }
