[package]
name = "dfi18n"
version = "0.1.0"
edition = "2021"
publish = false

[dependencies]
indexmap = "=2.14.2"
goblin = "=0.10.7"
csv = "=1.4.0"
serde = { version = "=1.0.229", features = ["derive"] }
fontdue = "=0.9.5"
anyhow = "=1.0.104"
log = "=0.4.35"
libloading = "=0.9.0"
tokio = { version = "=1.54.1", features = ["rt-multi-thread"] }
flexi_logger = { version = "=0.31.10", features = ["json", "async"] }
parking_lot = "=0.12.5"
clap = { version = "=4.6.7", features = ["derive"] }
color-print = "=0.3.7"
backtrace = "=0.3.77"
regex = "=1.13.1"
winapi = { version = "=0.3.9", features = ["libloaderapi"] }
