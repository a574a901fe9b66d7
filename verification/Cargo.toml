[package]
name = "demo2"
version = "0.1.0"
edition = "2021"
publish = false

[dependencies]
uuid = { version = "1", features = ["v4", "serde"] }
tokio = { version = "1", features = ["full"] }
serde = { version = "1", features = ["derive"] }
serde_json = "1"
bincode = "1"
thiserror = "2"
toml = "0.8"
tokio-postgres = "0.7"
tracing = "0.1"
tracing-subscriber = { version = "0.3", features = ["env-filter"] }
anyhow = "1"
async-trait = "0.1"
biquad = "0.4"
bytes = "1"
futures-util = "0.3"
egui = "0.32"
egui_plot = "0.33"
eframe = { version = "0.32", default-features = false, features = ["glow", "default_fonts", "x11"] }
