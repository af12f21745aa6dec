[package]
name = "sugarcane"
version = "0.1.0"
edition = "2021"
publish = false

[dependencies]
aes = "0.7"
cfb8 = "0.7"
miniz_oxide = "0.7"
ringbuf = "0.2"
itertools = "0.10"
convert_case = "0.4"
serde = { version = "1", features = ["derive"] }
serde_json = "1"
tokio = { version = "1", features = ["rt-multi-thread", "net", "io-util", "time", "sync"] }
clap = { version = "3", features = ["derive"] }
parking_lot = "0.12"
rayon = "1"
