[package]
name = "rdfind_rs"
version = "0.1.0"
edition = "2021"
publish = false

[dependencies]
md5 = "*"
sha1 = "*"
sha2 = "*"
xxhash-rust = { version = "*", features = ["xxh3"] }
rand = "*"
