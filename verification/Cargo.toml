[package]
name = "yushi"
version = "0.1.0"
edition = "2021"
publish = false

[dependencies]
quick-xml = "0.31"
xml-rs = "0.8"
hashlink = "0.9"
serde = { version = "1", features = ["derive"] }
serde_json = "1"
chrono = "0.4"
croner = "2"
uuid = { version = "1", features = ["v4"] }
anyhow = "1"
thiserror = "1"
tokio = { version = "1", features = ["full"] }
futures = "0.3"
async-stream = "0.3"
async-trait = "0.1"
log = "0.4"
tracing = "0.1"
tracing-subscriber = "0.3"
toml = "0.8"
glob = "0.3"
reqwest = { version = "0.12", default-features = false, features = ["json"] }
actix-web = { version = "4", default-features = false, features = ["macros"] }
clap = { version = "4", features = ["derive"] }
reedline = "*"

[dev-dependencies]
tempfile = "3"
