[package]
name = "weylus"
version = "0.1.0"
edition = "2021"
publish = false

[dependencies]
percent-encoding = "2.1"
qrcode = { version = "0.12", default-features = false, features = ["image"] }
image = { version = "0.23", default-features = false, features = ["png"] }
pnet = "0.28"
tokio = { version = "1", features = ["sync"] }
tracing = "0.1"
fltk = "1"
