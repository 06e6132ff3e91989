[package]
name = "gguf_rs"
version = "0.1.0"
edition = "2021"
publish = false

[dependencies]
anyhow = "1"
ash = { version = "0.38", default-features = false, features = ["loaded", "debug", "std"] }
axum = "0.7"
bytemuck = "1"
clap = { version = "4", features = ["derive"] }
futures = "0.3"
half = "2"
libloading = "0.8"
memmap2 = "0.9"
rayon = "1"
serde = { version = "1", features = ["derive"] }
serde_json = "1"
tokio = { version = "1", features = ["rt-multi-thread", "macros", "sync", "net", "signal", "time"] }
toml = "0.8"
tower-http = { version = "0.5", features = ["cors"] }
uuid = { version = "1", features = ["v4"] }
