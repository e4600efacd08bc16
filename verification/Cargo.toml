[package]
name = "rs_wc"
version = "0.1.0"
edition = "2021"
publish = false

[dependencies]
clap = { version = "4", features = ["derive"] }
memmap = "0.7"
proptest = { version = "1", default-features = false, features = ["std"] }
rayon = "1"
serde_json = "1"
thiserror = "1"
