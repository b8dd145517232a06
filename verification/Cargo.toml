[package]
name = "pklx"
version = "0.1.0"
edition = "2021"
publish = false

[dependencies]
pklr = "1"
indexmap = "2"
serde = { version = "1", features = ["derive"] }
serde_json = "1"
miette = "7"
thiserror = "2"
clap = { version = "4", features = ["derive"] }
tokio = { version = "1", features = ["macros", "rt-multi-thread"] }
