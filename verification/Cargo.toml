[package]
name = "borsh_gen_ts"
version = "0.1.0"
edition = "2021"
publish = false

[dependencies]
borsh = { version = "=1.8.1", features = ["unstable__schema"] }
displaydoc = "=0.2.7"
ordermap = "=1.2.2"
syn = { version = "=2.0.119", default-features = false, features = ["derive", "parsing"] }
