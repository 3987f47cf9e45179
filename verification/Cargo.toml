[package]
name = "study_bible"
version = "0.1.0"
edition = "2021"
publish = false

[dependencies]
quick-xml = "0.38"
serde = { version = "1", features = ["derive"] }
serde_json = "1"
reqwest = "0.12"
tokio = { version = "1", features = ["fs", "rt-multi-thread", "macros"] }
directories = "5"
thiserror = "1"
