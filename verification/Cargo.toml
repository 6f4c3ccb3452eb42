[package]
name = "ffs"
version = "0.1.0"
edition = "2021"
publish = false

[dependencies]
async-stream = "0.3"
byteorder = "1"
clap = { version = "4", features = ["derive"] }
console-subscriber = "0.4"
crossterm = { version = "0.28", features = ["event-stream"] }
eyre = "0.6"
hex = "0.4"
hostname = "0.4"
itertools = "0.13"
rand = "0.8"
range-set = "*"
ratatui = "0.28"
sha2 = "0.10"
socket2 = { version = "0.5", features = ["all"] }
tokio = { version = "1", features = ["full"] }
tokio-stream = { version = "0.1", features = ["sync"] }
tokio-util = "0.7"
tracing = "0.1"
tracing-subscriber = { version = "0.3", features = ["env-filter"] }
