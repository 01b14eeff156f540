[package]
name = "actix_web"
version = "0.1.0"
edition = "2021"
publish = false

[dependencies]
sha1 = "=0.6.1"
base64 = "=0.10.1"
regex = "=1.13.1"
mime = "=0.3.17"
httparse = "=1.10.1"
http = "=0.1.21"
cookie = { version = "=0.11.5", features = ["percent-encode"] }
socket2 = "0.3"
