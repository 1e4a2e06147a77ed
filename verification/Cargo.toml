[package]
name = "bitfrost"
version = "0.1.0"
edition = "2021"
publish = false

[dependencies]
bendy = "0.3"
bip_bencode = "0.4"
futures = "0.3"
hex = "0.4"
rand = "0.9"
reqwest = { version = "0.12", default-features = false }
sha1 = "0.10"
thiserror = "2"
tokio = { version = "1", features = ["full"] }
urlencoding = "2"
