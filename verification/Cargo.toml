[package]
name = "hdfs_connection"
version = "0.1.0"
edition = "2021"
publish = false

[dependencies]
bytes = "1"
chrono = "0.4"
crc = "3"
log = "0.4"
once_cell = "1"
prost = "0.12"
rustls = { version = "0.23", default-features = false, features = ["ring", "std", "tls12", "logging"] }
rustls-pemfile = "2"
socket2 = "0.5"
tokio = { version = "1", features = ["net", "io-util", "rt", "sync"] }
tokio-rustls = { version = "0.26", default-features = false, features = ["ring", "tls12", "logging"] }
uuid = { version = "1", features = ["v4"] }
