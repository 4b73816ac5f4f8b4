[package]
name = "hone"
version = "0.1.0"
edition = "2021"
publish = false

[dependencies]
anyhow = "1"
bytecodec = { version = "0.4", features = ["json_codec"] }
clap = { version = "3", features = ["derive"] }
fibers = "0.1"
fibers_global = "0.1"
fibers_rpc = "0.3"
futures = "0.1"
rand = "0.7"
rand_distr = "0.2"
serde = { version = "1", features = ["derive"] }
serde_json = "1"
tempfile = "3"
thiserror = "1"
uuid = { version = "1", features = ["v4", "serde"] }

[dev-dependencies]
ordered-float = "2"
