[package]
name = "kafka_protocol"
version = "0.1.0"
edition = "2021"
publish = false

[dependencies]
crc = "1"
integer-encoding = "1"
snap = "1"
tokio = { version = "1", features = ["net", "io-util", "rt", "macros"] }
quick-error = "1"
combine = "4"
log = "0.4"
