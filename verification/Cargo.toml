[package]
name = "core_probe"
version = "0.1.0"
edition = "2021"
publish = false

[dependencies]
regex = "=1.13.1"
uuid = { version = "=1.29.0", features = ["v4"] }
time = { version = "=0.3.55", features = ["local-offset"] }
fast_qr = "=0.14.0"
anyhow = "=1.0.104"
argh = "=0.1.19"
serde = { version = "=1.0.229", features = ["derive"] }
serde_json = "=1.0.154"
tracing = "=0.1.44"
tracing-subscriber = { version = "=0.3.23", features = ["local-time"] }
ctrlc = "=3.5.2"
nix = { version = "=0.31.3", features = ["signal", "process", "user", "sched"] }
sysinfo = "=0.40.1"
semver = "=1.0.28"

[dev-dependencies]
tempfile = "=3.27.0"
qr_code = { version = "=2.0.0", features = ["bmp", "decode"] }
