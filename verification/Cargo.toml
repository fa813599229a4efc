[package]
name = "melonbooks_sync"
version = "0.1.0"
edition = "2021"
publish = false

[dependencies]
chrono = "*"
clap = { version = "*", features = ["derive"] }
figment = { version = "*", features = ["yaml"] }
reqwest = { version = "*", default-features = false, features = ["blocking", "cookies", "rustls-tls"] }
rusqlite = { version = "*", features = ["bundled"] }
select = "*"
serde = "*"
serde_derive = "*"
serde_json = "*"
thiserror = "*"
tokio = { version = "*", features = ["rt-multi-thread", "macros", "time"] }
webhook = "*"
