[package]
name = "telemetry_charts"
version = "0.1.0"
edition = "2021"
publish = false

[dependencies]
anyhow = "1"
chrono = "0.4"
chrono-tz = "0.8"
clap = { version = "4", features = ["derive"] }
plotters = "0.3"
