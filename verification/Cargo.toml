[package]
name = "zincio_http"
version = "0.4.7"
edition = "2021"
publish = false

[dependencies]
bytes = "1"
futures-util = "0.3"
http = "1"
http-body = "1"
http-body-util = "0.1"
httparse = "1"
httpdate = "1"
kanal = "0.1"
memchr = "2"
oneshot = "*"
parking_lot = "0.12"
pin-project-lite = "0.2"
rustc-hash = "2"
smallvec = "1"
tokio = { version = "1", features = ["io-util", "sync"] }
tokio-util = "0.7"
zincio = "*"
