[package]
name = "prehrajto_core"
version = "0.1.0"
edition = "2021"
publish = false

[dependencies]
urlencoding = "*"
reqwest = { version = "*", default-features = false, features = ["cookies"] }
tokio = { version = "*", features = ["sync", "time", "rt", "macros"] }
serde = { version = "*", features = ["derive"] }
thiserror = "*"
