[package]
name = "monad-monitor"
version = "0.1.0"
edition = "2021"
publish = false

[dependencies]
alloy-primitives = { version = "*", default-features = false, features = ["std"] }
clap = { version = "*", features = ["derive"] }
futures-util = "*"
hex = "*"
inotify = "*"
lru = "*"
tokio = { version = "*", features = ["macros", "rt-multi-thread", "time"] }
toml = "*"
tracing = "*"
tracing-subscriber = { version = "*", features = ["json"] }
