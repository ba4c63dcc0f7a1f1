[package]
name = "yscloud"
version = "0.1.0"
edition = "2021"
publish = false

[dependencies]
byteorder = "=1.5.0"
percent-encoding = "=2.3.2"
ip_network = "=0.4.1"
rand = "=0.8.8"
ksuid = "=0.2.0"
ppp = "=2.3.0"
linked-hash-map = "=0.5.6"
smallvec = "=1.16.4"
serde = { version = "=1.0.229", features = ["derive"] }
serde_json = "=1.0.154"
libc = "=0.2.191"
nix = "=0.31.3"
zip = { version = "=0.5.13", default-features = false, features = ["deflate"] }
