[package]
name = "grace"
version = "0.1.0"
edition = "2021"
publish = false

[dependencies]
byteorder = "=1.5.0"
hound = "=3.5.1"
regex = "=1.13.1"
tokio = { version = "=1.54.1", features = ["rt-multi-thread", "macros", "fs"] }
futures = "=0.3.34"
once_cell = "=1.21.4"
crossbeam = "=0.8.5"
bytes = "=1.12.1"
env_logger = "=0.11.11"
serde = { version = "=1.0.229", features = ["derive"] }
deepgram = "=0.4.0"
reqwest = { version = "0.11", features = ["stream"] }
egui = "0.27"
egui_extras = { version = "0.27", default-features = false }
poll-promise = "0.3"
turbosql = "0.9"
tracked = "0.5"
