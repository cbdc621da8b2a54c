[package]
name = "tussle"
version = "0.1.0"
edition = "2021"
publish = false

[dependencies]
plist = { version = "=1.10.3", features = ["enable_unstable_features_that_may_break_with_minor_version_bumps"] }
anyhow = "=1.0.104"
clap = { version = "=4.6.7", features = ["derive"] }
serde = { version = "=1.0.229", features = ["derive"] }
serde_json = "=1.0.154"
tabled = "=0.22.0"
tracing = "=0.1.44"
tracing-subscriber = { version = "=0.3.23", features = ["env-filter"] }
dirs = "=7.0.0"
ctrlc = "=3.5.2"
accessibility-sys = "=0.2.0"
core-foundation = "=0.10.1"
core-graphics = "=0.25.0"
objc2-app-kit = "=0.3.2"
