[package]
name = "beacon"
version = "0.1.0"
edition = "2021"
publish = false

[dependencies]
embedded-hal = "1"
esp-idf-hal = "*"
esp-idf-svc = "*"
esp-idf-sys = "*"
hound = "3"
image = { version = "0.25", default-features = false, features = ["png"] }
libcsp = "*"
log = "0.4"
sstv = "*"
