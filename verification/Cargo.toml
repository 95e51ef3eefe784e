[package]
name = "segmented_file_client"
version = "0.1.0"
edition = "2021"
publish = false

[dependencies]
anyhow = "1"
tokio = { version = "1", features = ["net", "rt-multi-thread", "macros"] }
