[package]
name = "fast-socket-rs"
version = "0.1.0"
edition = "2021"
publish = false

[dependencies]
aya-ebpf = "0.1"
clap = { version = "4", features = ["derive"] }
crossbeam-queue = "0.3"
libc = "0.2"
tokio = { version = "1", features = ["macros", "net", "rt", "sync", "time"] }
