[package]
name = "mad_rust_util"
version = "0.1.0"
edition = "2021"
publish = false

[dependencies]
barrage = "0.2"
bincode = "1"
dirs = "4"
hashbrown = "0.14"
libc = "0.2"
notify = "4"
serde = { version = "1", features = ["derive"] }
serde_json = "1"
sysinfo = { version = "0.29", default-features = false }
tokio = { version = "1", default-features = false, features = ["rt", "rt-multi-thread", "net", "time", "sync", "macros"] }
