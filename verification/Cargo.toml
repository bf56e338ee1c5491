[package]
name = "plexus"
version = "0.1.0"
edition = "2021"
publish = false

[dependencies]
chrono = "*"
clap = { version = "*", features = ["derive"] }
color-eyre = "*"
command-group = { version = "*", features = ["with-tokio"] }
crossterm = { version = "*", features = ["event-stream"] }
futures = "*"
globset = "*"
globwalk = "*"
hex = "*"
ignore = "*"
notify = "*"
owo-colors = "*"
ratatui = "*"
regex = "*"
schemars = "*"
serde = { version = "*", features = ["derive"] }
serde_json = "*"
sha2 = "*"
time = { version = "*", features = ["macros"] }
tokio = { version = "*", features = ["full"] }
tokio-tungstenite = "*"
tracing = "*"
tracing-appender = "*"
tracing-subscriber = { version = "*", features = ["time"] }
unicode-width = "*"
uuid = { version = "*", features = ["v4"] }
which = "*"
