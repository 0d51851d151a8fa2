[package]
name = "state-collector"
version = "0.1.0"
edition = "2021"
publish = false

[dependencies]
anyhow = "=1.0.104"
chrono = "=0.4.45"
clap = { version = "=4.6.7", features = ["derive"] }
flate2 = "=1.1.10"
libc = "=0.2.191"
postcard = { version = "=1.1.3", features = ["alloc"] }
rsn = "=0.2.0"
rune = "=0.14.2"
rune-modules = "=0.14.2"
serde = { version = "=1.0.229", features = ["derive"] }
serde_json = "=1.0.154"
tar = "=0.4.46"
tempfile = "=3.27.0"
tokio = { version = "=1.54.1", features = ["macros", "rt-multi-thread"] }
