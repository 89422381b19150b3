[package]
name = "qbuild"
version = "0.1.0"
edition = "2021"
publish = false

[dependencies]
chrono = { version = "=0.4.45", default-features = false, features = ["std", "clock"] }
clap = { version = "4", features = ["derive"] }
dirs = "=5.0.1"
flate2 = "=1.1.10"
glob = "0.3"
libc = "0.2"
nix = { version = "0.29", features = ["fs", "mount", "process", "sched", "signal", "user"] }
reqwest = { version = "=0.12.28", default-features = false, features = ["rustls-tls"] }
serde = { version = "1", features = ["derive"] }
serde_json = "=1.0.154"
sha2 = "=0.10.9"
shlex = "=1.3.0"
tar = "=0.4.46"
thiserror = "2"
tokio = { version = "1", features = ["io-util", "macros", "net", "rt-multi-thread", "sync"] }
uuid = { version = "=1.29.0", features = ["v4"] }
walkdir = "2"
