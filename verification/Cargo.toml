[package]
name = "blockworld"
version = "0.1.0"
edition = "2021"
publish = false

[dependencies]
rand = "0.9"
itertools = "0.14"
noise = "0.9"
fast_poisson = "1"
serde = { version = "1", features = ["derive"] }
serde-pickle = "1"
tokio = { version = "1", features = ["full"] }
clap = { version = "4", features = ["derive"] }
log = "0.4"
env_logger = "0.11"
thiserror = "2"
ratatui = "0.29"
crossterm = { version = "0.28", features = ["event-stream"] }
tui-textarea = "0.7"
futures = "0.3"
humantime = "2"
color-eyre = "0.6"
