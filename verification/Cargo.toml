[package]
name = "skedgy"
version = "0.1.0"
edition = "2021"
publish = false

[dependencies]
async-channel = "2"
chrono = "0.4"
convert_case = "0.6"
cron = "*"
dyn-clone = "1"
futures = "0.3"
humantime = "2"
log = "0.4"
nanoid = "0.4"
proc-macro-crate = "*"
proc-macro2 = "1"
quote = "1"
serde = { version = "1", features = ["derive"] }
syn = { version = "2", features = ["full"] }
tokio = { version = "1", features = ["rt", "rt-multi-thread", "sync", "time", "macros"] }
